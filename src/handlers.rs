//! The request handlers: what each command computes from its payload, the
//! index and the results of the file operations that it needs.

use crate::alias::{resolve_label, run_view, spec_label, ScriptRun};
use crate::index::{
    entry_rows, has_key, index_rows, is_wildcard, live_digest, lives_view, recorded, rows_view,
    value_of, with_action, IndexModel, ListRow, RowModel, State,
};
use crate::store::{blob_path, digest_of, sha256_hex, spec_blob_path};
use crate::types::{Action, ActionModel, Alias, AliasModel, Command, Error, Track, TrackModel};
use vstd::prelude::*;
use vstd::utf8::encode_utf8;

verus! {

/// A capture of a file's content: its digest, its label, where its copy
/// goes, and the bytes to store there.
pub struct Capture {
    pub digest: String,
    pub label: String,
    pub blob: String,
    pub contents: Vec<u8>,
}

/// Prepares the capture of `path` into the store under `root`. `contents`
/// is what was read of the file (`Err` with the reason where it could not be
/// read); `run` is how the alias program ended, where the policy names one.
pub fn prepare_capture(
    root: &str,
    path: &String,
    alias: &Alias,
    contents: Result<Vec<u8>, String>,
    run: Option<Result<ScriptRun, String>>,
) -> (r: Result<Capture, Error>)
    ensures
        spec_label(path@, alias@, run_view(&run)) is None ==> (r matches Err(e) && (if alias@
            is Basename {
            e is Alias
        } else {
            e is Script
        })),
        spec_label(path@, alias@, run_view(&run)) is Some && contents is Err ==> (r matches Err(
            e,
        ) && e is Io),
        spec_label(path@, alias@, run_view(&run)) matches Some(l) ==> (contents matches Ok(c) ==> (
        r matches Ok(cap) && cap.label@ == l && cap.digest@ == sha256_hex(c@) && cap.blob@
            == spec_blob_path(root@, path@, sha256_hex(c@)) && cap.contents@ == c@)),
{
    let label = resolve_label(path, alias, run)?;
    let contents = match contents {
        Ok(c) => c,
        Err(m) => return Err(Error::Io(m)),
    };
    let digest = digest_of(contents.as_slice());
    let blob = blob_path(root, path.as_str(), digest.as_str());
    Ok(Capture { digest, label, blob, contents })
}

impl State {
    /// Records a capture whose copy is stored.
    pub fn record_capture(&mut self, path: &String, alias: &Alias, cap: &Capture)
        ensures
            final(self)@ == recorded(
                old(self)@,
                path@,
                alias@,
                cap.digest@,
                (cap.label@, cap.blob@),
            ),
    {
        self.record_snapshot(path, alias, &cap.digest, &cap.label, &cap.blob);
    }
}

/// The index after a track request whose capture has digest `d`: the
/// capture is recorded, then the entry takes the request's action.
pub open spec fn after_track(
    m: IndexModel,
    t: TrackModel,
    d: Seq<char>,
    snap: (Seq<char>, Seq<char>),
) -> IndexModel {
    with_action(recorded(m, t.fpath, t.alias, d, snap), t.fpath, t.action)
}

/// The `Debug` form of a string: the characters in double quotes, with
/// quotes, backslashes and characters that do not print escaped.
pub uninterp spec fn debug_str(s: Seq<char>) -> Seq<char>;

/// Relies on the `Debug` form of `str`, through `format!("{:?}", s)`: a
/// text that depends on the characters of `s` alone.
#[verifier::external_body]
fn debug_quoted(s: &str) -> (r: String)
    ensures
        r@ == debug_str(s@),
{
    format!("{:?}", s)
}

/// An action as the confirmation of a track request names it.
pub open spec fn action_debug(a: ActionModel) -> Seq<char> {
    match a {
        ActionModel::Save => "SAVE"@,
        ActionModel::Script(s) => tagged_text("SCRIPT"@, debug_str(s)),
    }
}

/// An alias policy as the confirmation of a track request names it.
pub open spec fn alias_debug(a: AliasModel) -> Seq<char> {
    match a {
        AliasModel::Script(s) => tagged_text("SCRIPT"@, debug_str(s)),
        AliasModel::Basename => "BASENAME"@,
        AliasModel::Name(n) => tagged_text("NAME"@, debug_str(n)),
    }
}

/// A variant that carries a string: its name, then the string's `Debug`
/// form in parentheses.
pub open spec fn tagged_text(name: Seq<char>, quoted: Seq<char>) -> Seq<char> {
    name + "("@ + quoted + ")"@
}

/// Writes a variant's name with the `Debug` form of its string, given as
/// `quoted`.
pub fn tagged(name: &str, quoted: &str) -> (r: String)
    ensures
        r@ == tagged_text(name@, quoted@),
{
    let mut r = String::new();
    r.append(name);
    r.append("(");
    r.append(quoted);
    r.append(")");
    r
}

/// The name of `a` in the confirmation of a track request.
pub fn action_name(a: &Action) -> (r: String)
    ensures
        r@ == action_debug(a@),
{
    match a {
        Action::Save => String::from_str("SAVE"),
        Action::Script(s) => tagged("SCRIPT", debug_quoted(s.as_str()).as_str()),
    }
}

/// The name of `a` in the confirmation of a track request.
pub fn alias_name(a: &Alias) -> (r: String)
    ensures
        r@ == alias_debug(a@),
{
    match a {
        Alias::Script(s) => tagged("SCRIPT", debug_quoted(s.as_str()).as_str()),
        Alias::Basename => String::from_str("BASENAME"),
        Alias::Name(n) => tagged("NAME", debug_quoted(n.as_str()).as_str()),
    }
}

pub open spec fn track_text_of(path: Seq<char>, action: Seq<char>, alias: Seq<char>) -> Seq<char> {
    "Added "@ + path + " with action "@ + action + " and alias method "@ + alias
        + " to tracked files"@
}

/// The confirmation of a track request.
pub open spec fn track_text(t: TrackModel) -> Seq<char> {
    track_text_of(t.fpath, action_debug(t.action), alias_debug(t.alias))
}

/// Writes the confirmation of a track request of `path`, given the names of
/// its action and alias policy.
pub fn track_message(path: &str, action: &str, alias: &str) -> (r: String)
    ensures
        r@ == track_text_of(path@, action@, alias@),
{
    let mut r = String::new();
    r.append("Added ");
    r.append(path);
    r.append(" with action ");
    r.append(action);
    r.append(" and alias method ");
    r.append(alias);
    r.append(" to tracked files");
    r
}

/// Completes a track request once its capture is stored: records the
/// capture, sets the entry's action, and confirms.
pub fn track_commit(state: &mut State, track: &Track, cap: &Capture) -> (r: String)
    ensures
        final(state)@ == after_track(old(state)@, track@, cap.digest@, (cap.label@, cap.blob@)),
        r@ == track_text(track@),
{
    state.record_capture(&track.fpath, &track.alias, cap);
    state.set_action(&track.fpath, &track.action);
    let action = action_name(&track.action);
    let alias = alias_name(&track.alias);
    track_message(track.fpath.as_str(), action.as_str(), alias.as_str())
}

/// A restore that a select request asks for: the stored copy to put back
/// over the tracked file.
pub struct Restore {
    pub blob: String,
    pub target: String,
}

/// Finds the copy that a select request of `digest` for `path` restores.
pub fn select(state: &State, path: &String, digest: &String) -> (r: Result<Restore, Error>)
    ensures
        has_key(state@, path@) && has_key(value_of(state@, path@).snapshots, digest@) ==> (r matches Ok(
            x,
        ) && x.target@ == path@ && x.blob@ == value_of(value_of(state@, path@).snapshots, digest@).1),
        !(has_key(state@, path@) && has_key(value_of(state@, path@).snapshots, digest@)) ==> (
        r matches Err(e) && e is NotFound),
{
    let blob = state.snapshot_blob(path, digest)?;
    Ok(Restore { blob, target: path.clone() })
}

pub open spec fn restore_text(blob: Seq<char>, target: Seq<char>) -> Seq<char> {
    "Selected "@ + blob + " ==> "@ + target
}

/// The confirmation of a restore that was carried out.
pub fn restore_message(x: &Restore) -> (r: String)
    ensures
        r@ == restore_text(x.blob@, x.target@),
{
    let mut r = String::new();
    r.append("Selected ");
    r.append(x.blob.as_str());
    r.append(" ==> ");
    r.append(x.target.as_str());
    r
}

/// One line of a listing: path, digest, label in parentheses, and a star
/// where the snapshot is the live content.
pub open spec fn row_text(r: RowModel) -> Seq<char> {
    r.0 + " "@ + r.1 + " ("@ + r.2 + ")"@ + (if r.3 {
        " *"@
    } else {
        ""@
    }) + "\n"@
}

pub open spec fn rows_text(rows: Seq<RowModel>) -> Seq<char>
    decreases rows.len(),
{
    if rows.len() == 0 {
        seq![]
    } else {
        rows_text(rows.drop_last()) + row_text(rows.last())
    }
}

/// Writes a listing as text, one line per row.
pub fn render_rows(rows: &Vec<ListRow>) -> (r: String)
    ensures
        r@ == rows_text(rows_view(rows@)),
{
    let mut r = String::new();
    let mut i: usize = 0;
    while i < rows.len()
        invariant
            i <= rows@.len(),
            r@ == rows_text(rows_view(rows@).take(i as int)),
        decreases rows@.len() - i,
    {
        let row = &rows[i];
        let ghost before = r@;
        r.append(row.path.as_str());
        r.append(" ");
        r.append(row.digest.as_str());
        r.append(" (");
        r.append(row.label.as_str());
        r.append(")");
        if row.current {
            r.append(" *");
        } else {
            proof {
                reveal_strlit("");
            }
        }
        r.append("\n");
        assert(rows_view(rows@).take(i + 1).drop_last() =~= rows_view(rows@).take(i as int));
        assert(r@ =~= before + row_text(row@));
        i = i + 1;
    }
    assert(rows_view(rows@).take(i as int) =~= rows_view(rows@));
    r
}

/// Handles a list request: the listing of `pattern`, as text. `live[i]` is
/// what could be read of the `i`-th file that `State::list_sources` names.
pub fn list(state: &State, pattern: &String, live: &Vec<Option<Vec<u8>>>) -> (r: Result<
    String,
    Error,
>)
    ensures
        is_wildcard(pattern@) ==> (r matches Ok(t) && t@ == rows_text(
            index_rows(state@, lives_view(live@)),
        )),
        !is_wildcard(pattern@) && has_key(state@, pattern@) ==> (r matches Ok(t) && t@ == rows_text(
            entry_rows(
                pattern@,
                value_of(state@, pattern@).snapshots,
                live_digest(lives_view(live@), 0),
            ),
        )),
        !is_wildcard(pattern@) && !has_key(state@, pattern@) ==> (r matches Err(e)
            && e is NotFound),
{
    let rows = state.list_rows(pattern, live)?;
    Ok(render_rows(&rows))
}

/// Handles an echo request: the message itself.
pub fn echo(message: &String) -> (r: Result<String, Error>)
    ensures
        r matches Ok(t) && t@ == message@,
{
    Ok(message.clone())
}

/// Handles an echo-error request: a failure that carries the message.
pub fn echo_error(message: &String) -> (r: Result<String, Error>)
    ensures
        r matches Err(e) && e == Error::Echoed(*message),
{
    Err(Error::Echoed(message.clone()))
}

/// The text of a failed request: the command's name, then the failure.
pub open spec fn failure_text(c: Command, e: Error) -> Seq<char> {
    c.spec_name() + " failed: "@ + e.spec_text()
}

/// The bytes written back for a handled request: the text of the result,
/// whether it succeeded or failed.
pub open spec fn response_bytes(c: Command, r: Result<String, Error>) -> Seq<u8> {
    match r {
        Ok(t) => encode_utf8(t@),
        Err(e) => encode_utf8(failure_text(c, e)),
    }
}

/// The response to a request for `command` that ended with `result`.
pub fn respond(command: Command, result: &Result<String, Error>) -> (r: Vec<u8>)
    ensures
        r@ == response_bytes(command, *result),
{
    let text = match result {
        Ok(t) => t.clone(),
        Err(e) => {
            let mut s = String::new();
            s.append(command.name());
            s.append(" failed: ");
            s.append(e.text().as_str());
            s
        },
    };
    vstd::slice::slice_to_vec(text.as_str().as_bytes())
}

} // verus!
