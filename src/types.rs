//! The protocol's and the index's plain data types, with their models.

use vstd::prelude::*;

verus! {

/// The command of a control-protocol envelope. The order of the variants is
/// the order of their tags on the wire.
#[derive(Debug, PartialEq, Eq, Structural, Clone, Copy)]
pub enum Command {
    EchoError,
    Echo,
    List,
    Track,
    Select,
}

/// The command that a wire tag stands for.
pub open spec fn command_of_tag(tag: u32) -> Option<Command> {
    if tag == 0 {
        Some(Command::EchoError)
    } else if tag == 1 {
        Some(Command::Echo)
    } else if tag == 2 {
        Some(Command::List)
    } else if tag == 3 {
        Some(Command::Track)
    } else if tag == 4 {
        Some(Command::Select)
    } else {
        None
    }
}

impl Command {
    /// The tag that stands for the command on the wire.
    pub open spec fn spec_tag(self) -> u32 {
        match self {
            Command::EchoError => 0,
            Command::Echo => 1,
            Command::List => 2,
            Command::Track => 3,
            Command::Select => 4,
        }
    }

    pub fn tag(&self) -> (r: u32)
        ensures
            r == self.spec_tag(),
    {
        match self {
            Command::EchoError => 0,
            Command::Echo => 1,
            Command::List => 2,
            Command::Track => 3,
            Command::Select => 4,
        }
    }

    pub fn from_tag(tag: u32) -> (r: Option<Command>)
        ensures
            r == command_of_tag(tag),
    {
        if tag == 0 {
            Some(Command::EchoError)
        } else if tag == 1 {
            Some(Command::Echo)
        } else if tag == 2 {
            Some(Command::List)
        } else if tag == 3 {
            Some(Command::Track)
        } else if tag == 4 {
            Some(Command::Select)
        } else {
            None
        }
    }

    /// Whether handling the command may leave the set of watched files, or
    /// the files behind the watches, changed.
    pub open spec fn spec_needs_rewatch(self) -> bool {
        self == Command::Track || self == Command::Select
    }

    pub fn needs_rewatch(&self) -> (r: bool)
        ensures
            r == self.spec_needs_rewatch(),
    {
        match self {
            Command::Track => true,
            Command::Select => true,
            _ => false,
        }
    }

    pub open spec fn spec_name(self) -> Seq<char> {
        match self {
            Command::EchoError => "EchoError"@,
            Command::Echo => "Echo"@,
            Command::List => "List"@,
            Command::Track => "Track"@,
            Command::Select => "Select"@,
        }
    }

    /// The command's name as it appears in failure messages.
    pub fn name(&self) -> (r: &'static str)
        ensures
            r@ == self.spec_name(),
    {
        match self {
            Command::EchoError => "EchoError",
            Command::Echo => "Echo",
            Command::List => "List",
            Command::Track => "Track",
            Command::Select => "Select",
        }
    }
}

/// How the label of a snapshot is found.
#[derive(Debug)]
pub enum Alias {
    /// The output of this program, run with the tracked path as its argument.
    Script(String),
    /// The last component of the tracked path.
    Basename,
    /// This fixed name.
    Name(String),
}

/// The model of an [`Alias`].
pub enum AliasModel {
    Script(Seq<char>),
    Basename,
    Name(Seq<char>),
}

impl View for Alias {
    type V = AliasModel;

    open spec fn view(&self) -> AliasModel {
        match self {
            Alias::Script(s) => AliasModel::Script(s@),
            Alias::Basename => AliasModel::Basename,
            Alias::Name(n) => AliasModel::Name(n@),
        }
    }
}

impl Clone for Alias {
    fn clone(&self) -> (r: Self)
        ensures
            r == *self,
    {
        match self {
            Alias::Script(s) => Alias::Script(s.clone()),
            Alias::Basename => Alias::Basename,
            Alias::Name(n) => Alias::Name(n.clone()),
        }
    }
}

/// What happens when a tracked file changes.
#[derive(Debug)]
pub enum Action {
    /// Capture a snapshot of the file.
    Save,
    /// Start this program with the tracked path as its argument.
    Script(String),
}

/// The model of an [`Action`].
pub enum ActionModel {
    Save,
    Script(Seq<char>),
}

impl View for Action {
    type V = ActionModel;

    open spec fn view(&self) -> ActionModel {
        match self {
            Action::Save => ActionModel::Save,
            Action::Script(s) => ActionModel::Script(s@),
        }
    }
}

impl Clone for Action {
    fn clone(&self) -> (r: Self)
        ensures
            r == *self,
    {
        match self {
            Action::Save => Action::Save,
            Action::Script(s) => Action::Script(s.clone()),
        }
    }
}

/// The envelope of every control-protocol message.
pub struct Packet {
    pub command: Command,
    pub payload: Vec<u8>,
}

/// The payload of a track request.
#[derive(Debug)]
pub struct Track {
    pub fpath: String,
    pub alias: Alias,
    pub action: Action,
}

/// The model of a [`Track`].
pub struct TrackModel {
    pub fpath: Seq<char>,
    pub alias: AliasModel,
    pub action: ActionModel,
}

impl View for Track {
    type V = TrackModel;

    open spec fn view(&self) -> TrackModel {
        TrackModel { fpath: self.fpath@, alias: self.alias@, action: self.action@ }
    }
}

/// A decoded request: the command with its payload.
#[derive(Debug)]
pub enum Request {
    Track(Track),
    List(String),
    Select(String, String),
    Echo(String),
    EchoError(String),
}

/// The model of a [`Request`].
pub enum RequestModel {
    Track(TrackModel),
    List(Seq<char>),
    Select(Seq<char>, Seq<char>),
    Echo(Seq<char>),
    EchoError(Seq<char>),
}

impl View for Request {
    type V = RequestModel;

    open spec fn view(&self) -> RequestModel {
        match self {
            Request::Track(t) => RequestModel::Track(t@),
            Request::List(p) => RequestModel::List(p@),
            Request::Select(p, d) => RequestModel::Select(p@, d@),
            Request::Echo(m) => RequestModel::Echo(m@),
            Request::EchoError(m) => RequestModel::EchoError(m@),
        }
    }
}

impl RequestModel {
    pub open spec fn command(self) -> Command {
        match self {
            RequestModel::Track(_) => Command::Track,
            RequestModel::List(_) => Command::List,
            RequestModel::Select(_, _) => Command::Select,
            RequestModel::Echo(_) => Command::Echo,
            RequestModel::EchoError(_) => Command::EchoError,
        }
    }
}

impl Request {
    pub fn command(&self) -> (r: Command)
        ensures
            r == self@.command(),
    {
        match self {
            Request::Track(_) => Command::Track,
            Request::List(_) => Command::List,
            Request::Select(_, _) => Command::Select,
            Request::Echo(_) => Command::Echo,
            Request::EchoError(_) => Command::EchoError,
        }
    }
}

/// The failures of the library, each with a detail text.
#[derive(Debug)]
pub enum Error {
    /// A file could not be read, written or copied.
    Io(String),
    /// The persisted index could not be parsed.
    IndexCorrupt(String),
    /// An unknown tracked path or snapshot digest.
    NotFound(String),
    /// A malformed request envelope or payload.
    Protocol(String),
    /// No label could be derived from a path.
    Alias(String),
    /// An alias program failed or printed something that is not text.
    Script(String),
    /// An action program could not be started.
    Spawn(String),
    /// The configured user or group could not be resolved or assumed.
    Privilege(String),
    /// A failure that a caller asked for, with the caller's text.
    Echoed(String),
}

impl Error {
    pub open spec fn spec_text(&self) -> Seq<char> {
        match self {
            Error::Io(d) => "I/O error: "@ + d@,
            Error::IndexCorrupt(d) => "corrupt index: "@ + d@,
            Error::NotFound(d) => "not found: "@ + d@,
            Error::Protocol(d) => "protocol error: "@ + d@,
            Error::Alias(d) => "alias error: "@ + d@,
            Error::Script(d) => "script error: "@ + d@,
            Error::Spawn(d) => "spawn error: "@ + d@,
            Error::Privilege(d) => "privilege error: "@ + d@,
            Error::Echoed(d) => d@,
        }
    }

    /// The failure as one line of text: its kind, then its detail.
    pub fn text(&self) -> (r: String)
        ensures
            r@ == self.spec_text(),
    {
        let (kind, d) = match self {
            Error::Io(d) => ("I/O error: ", d),
            Error::IndexCorrupt(d) => ("corrupt index: ", d),
            Error::NotFound(d) => ("not found: ", d),
            Error::Protocol(d) => ("protocol error: ", d),
            Error::Alias(d) => ("alias error: ", d),
            Error::Script(d) => ("script error: ", d),
            Error::Spawn(d) => ("spawn error: ", d),
            Error::Privilege(d) => ("privilege error: ", d),
            Error::Echoed(d) => ("", d),
        };
        let mut r = String::new();
        r.append(kind);
        r.append(d.as_str());
        proof {
            reveal_strlit("");
        }
        r
    }
}

} // verus!
