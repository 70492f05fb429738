//! Which daemon the application works with, and how this machine is called.
use crate::text;
use vstd::prelude::*;

verus! {

// ── Which daemon ───────────────────────────────────────────────────────────

/// How the application gets a daemon.
pub enum DaemonStart {
    /// One that runs elsewhere.
    Connect { address: String, token: String },
    /// What was asked for is incomplete.
    Refused { message: String },
    /// One of its own.
    Spawn,
}

pub ghost enum DaemonStartView {
    Connect { address: Seq<char>, token: Seq<char> },
    Refused { message: Seq<char> },
    Spawn,
}

impl View for DaemonStart {
    type V = DaemonStartView;

    open spec fn view(&self) -> DaemonStartView {
        match *self {
            DaemonStart::Connect { address, token } => DaemonStartView::Connect {
                address: address@,
                token: token@,
            },
            DaemonStart::Refused { message } => DaemonStartView::Refused { message: message@ },
            DaemonStart::Spawn => DaemonStartView::Spawn,
        }
    }
}

/// An address that says something.
pub open spec fn usable_address(address: Option<Seq<char>>) -> bool {
    address is Some && !text::blank(address->0)
}

/// A token that says something.
pub open spec fn usable_token(token: Option<Seq<char>>) -> bool {
    token is Some && token->0.len() > 0
}

/// How it is told that one setting lacks another.
pub open spec fn lacking(set: Seq<char>, missing: Seq<char>) -> Seq<char> {
    set + " is set but "@ + missing + " is missing"@
}

/// How the application gets a daemon, given what the environment holds under
/// two names.
pub open spec fn daemon_start(
    address: Option<Seq<char>>,
    token: Option<Seq<char>>,
    address_name: Seq<char>,
    token_name: Seq<char>,
) -> DaemonStartView {
    if usable_address(address) && usable_token(token) {
        DaemonStartView::Connect { address: text::trimmed(address->0), token: token->0 }
    } else if usable_address(address) {
        DaemonStartView::Refused { message: lacking(address_name, token_name) }
    } else if usable_token(token) {
        DaemonStartView::Refused { message: lacking(token_name, address_name) }
    } else {
        DaemonStartView::Spawn
    }
}

fn lack(set: &str, missing: &str) -> (message: String)
    ensures
        message@ == lacking(set@, missing@),
{
    let message = text::prefixed(set, " is set but ");
    let message = text::prefixed(message.as_str(), missing);
    text::prefixed(message.as_str(), " is missing")
}

/// Decides how the application gets a daemon. The address and the token of
/// one that runs elsewhere go together; a blank address and an empty token
/// count as absent.
pub fn start_process(
    address: &Option<String>,
    token: &Option<String>,
    address_name: &str,
    token_name: &str,
) -> (start: DaemonStart)
    ensures
        start@ == daemon_start(
            text::text_view(*address),
            text::text_view(*token),
            address_name@,
            token_name@,
        ),
{
    let has_address: bool = match address {
        Some(address) => !text::is_blank(address.as_str()),
        None => false,
    };
    let has_token: bool = match token {
        Some(token) => {
            let chars = text::chars_of(token.as_str());
            chars.len() > 0
        },
        None => false,
    };
    match (address, token) {
        (Some(address), Some(token)) if has_address && has_token => DaemonStart::Connect {
            address: text::trim(address.as_str()),
            token: token.clone(),
        },
        _ => if has_address {
            DaemonStart::Refused { message: lack(address_name, token_name) }
        } else if has_token {
            DaemonStart::Refused { message: lack(token_name, address_name) }
        } else {
            DaemonStart::Spawn
        },
    }
}

// ── How this machine is called ─────────────────────────────────────────────

/// How many bytes of a buffer come before its first zero.
pub fn name_length(buffer: &Vec<u8>) -> (length: usize)
    ensures
        length <= buffer@.len(),
        forall|i: int| 0 <= i < length ==> buffer@[i] != 0,
        length < buffer@.len() ==> buffer@[length as int] == 0,
{
    let count: usize = buffer.len();
    let mut i: usize = 0;
    while i < count
        invariant
            i <= count,
            count == buffer@.len(),
            forall|k: int| 0 <= k < i ==> buffer@[k] != 0,
        decreases count - i,
    {
        if buffer[i] == 0 {
            return i;
        }
        i += 1;
    }
    count
}

/// The first of several names that says something, without the whitespace
/// around it.
pub open spec fn first_name(names: Seq<Seq<char>>) -> Option<Seq<char>>
    decreases names.len(),
{
    if names.len() == 0 {
        None
    } else if text::blank(names[0]) {
        first_name(names.skip(1))
    } else {
        Some(text::trimmed(names[0]))
    }
}

/// How this machine is called: the first name that says something of what the
/// system and the environment offer.
pub fn local_hostname(names: &Vec<String>) -> (name: Option<String>)
    ensures
        text::text_view(name) == first_name(text::texts_view(names@)),
{
    let ghost all = text::texts_view(names@);
    let count: usize = names.len();
    let mut i: usize = 0;
    assert(all.skip(0) =~= all);
    while i < count
        invariant
            i <= count,
            count == names@.len(),
            all == text::texts_view(names@),
            first_name(all) == first_name(all.skip(i as int)),
        decreases count - i,
    {
        assert(all.skip(i as int)[0] == names@[i as int]@);
        if !text::is_blank(names[i].as_str()) {
            return Some(text::trim(names[i].as_str()));
        }
        assert(all.skip(i as int).skip(1) =~= all.skip(i + 1));
        i += 1;
    }
    None
}

// ── Where the daemon's executable is ───────────────────────────────────────

/// The file name of the daemon's executable: a released application bundles
/// one, development keeps its own among the build's artifacts.
pub fn daemon_file_name(development: bool, suffix: &str) -> (name: String)
    ensures
        development ==> name@ == "waku-debug-daemon"@ + suffix@,
        !development ==> name@ == "waku-daemon"@ + suffix@,
{
    if development {
        text::prefixed("waku-debug-daemon", suffix)
    } else {
        text::prefixed("waku-daemon", suffix)
    }
}

/// The nearest of a path's directories that is called `debug`, where their
/// names are text.
pub fn debug_directory(names: &Vec<Option<String>>) -> (found: Option<usize>)
    ensures
        match found {
            Some(i) => {
                &&& i < names@.len()
                &&& text::text_view(names@[i as int]) == Some("debug"@)
                &&& forall|k: int|
                    0 <= k < i ==> text::text_view(#[trigger] names@[k]) != Some("debug"@)
            },
            None => forall|k: int|
                0 <= k < names@.len() ==> text::text_view(#[trigger] names@[k]) != Some(
                    "debug"@,
                ),
        },
{
    let count: usize = names.len();
    let mut i: usize = 0;
    while i < count
        invariant
            i <= count,
            count == names@.len(),
            forall|k: int|
                0 <= k < i ==> text::text_view(#[trigger] names@[k]) != Some("debug"@),
        decreases count - i,
    {
        if let Some(name) = &names[i] {
            if text::same(name.as_str(), "debug") {
                return Some(i);
            }
        }
        i += 1;
    }
    None
}

/// Where the daemon's executable is looked for.
pub struct DaemonSearch {
    /// The directory around the application that is looked into first, by its
    /// place among the application's directories, and the file's name there.
    pub debug: Option<(usize, String)>,
    /// The file's name next to the application.
    pub sibling: String,
}

/// Where the daemon's executable is looked for: in development first in the
/// nearest directory called `debug`, under the name that development gives
/// it; then next to the application, under the name of a bundled one. `names`
/// are the names of the application's path and of its directories, the
/// nearest first.
pub fn daemon_search(development: bool, suffix: &str, names: &Vec<Option<String>>) -> (search:
    DaemonSearch)
    ensures
        search.sibling@ == "waku-daemon"@ + suffix@,
        match search.debug {
            Some((i, name)) => {
                &&& development
                &&& name@ == "waku-debug-daemon"@ + suffix@
                &&& i < names@.len()
                &&& text::text_view(names@[i as int]) == Some("debug"@)
                &&& forall|k: int|
                    0 <= k < i ==> text::text_view(#[trigger] names@[k]) != Some("debug"@)
            },
            None => development ==> forall|k: int|
                0 <= k < names@.len() ==> text::text_view(#[trigger] names@[k]) != Some(
                    "debug"@,
                ),
        },
{
    let debug = if development {
        match debug_directory(names) {
            Some(i) => Some((i, daemon_file_name(true, suffix))),
            None => None,
        }
    } else {
        None
    };
    DaemonSearch { debug, sibling: daemon_file_name(false, suffix) }
}

/// What was found of the daemon's executable.
pub struct DaemonFiles {
    /// Whether the environment names one.
    pub named: bool,
    /// Why the application's own executable could not be found.
    pub current_error: Option<String>,
    /// Whether this is a build for development.
    pub development: bool,
    /// Whether the nearest directory called `debug` around the application
    /// holds the one of development.
    pub in_debug: bool,
    /// Where one would stand next to the application, as it is shown.
    pub sibling: Option<String>,
    pub sibling_is_file: bool,
}

/// Which executable is the daemon's.
pub enum DaemonPath {
    Named,
    InDebug,
    Sibling,
    Missing { message: String },
}

pub ghost enum DaemonPathView {
    Named,
    InDebug,
    Sibling,
    Missing { message: Seq<char> },
}

impl View for DaemonPath {
    type V = DaemonPathView;

    open spec fn view(&self) -> DaemonPathView {
        match *self {
            DaemonPath::Named => DaemonPathView::Named,
            DaemonPath::InDebug => DaemonPathView::InDebug,
            DaemonPath::Sibling => DaemonPathView::Sibling,
            DaemonPath::Missing { message } => DaemonPathView::Missing { message: message@ },
        }
    }
}

impl DaemonFiles {
    /// Which executable is the daemon's.
    pub open spec fn path(self) -> DaemonPathView {
        if self.named {
            DaemonPathView::Named
        } else if self.current_error is Some {
            DaemonPathView::Missing {
                message: "could not locate the Kerenzikov executable: "@ + self.current_error->0@,
            }
        } else if self.development && self.in_debug {
            DaemonPathView::InDebug
        } else if self.sibling is None {
            DaemonPathView::Missing { message: "Kerenzikov executable has no parent directory"@ }
        } else if self.sibling_is_file {
            DaemonPathView::Sibling
        } else {
            DaemonPathView::Missing {
                message: (if self.development {
                    "Kerenzikov daemon was not found in Cargo's debug directory or next to the app executable: "@
                } else {
                    "Kerenzikov daemon is missing next to the app executable: "@
                }) + self.sibling->0@,
            }
        }
    }
}

/// Decides which executable is the daemon's: one that the environment names,
/// in development one in the build's own directory, or the one next to the
/// application.
pub fn daemon_executable_path(files: &DaemonFiles) -> (path: DaemonPath)
    ensures
        path@ == files.path(),
{
    if files.named {
        return DaemonPath::Named;
    }
    if let Some(error) = &files.current_error {
        return DaemonPath::Missing {
            message: text::prefixed(
                "could not locate the Kerenzikov executable: ",
                error.as_str(),
            ),
        };
    }
    if files.development && files.in_debug {
        return DaemonPath::InDebug;
    }
    match &files.sibling {
        None => DaemonPath::Missing {
            message: text::owned("Kerenzikov executable has no parent directory"),
        },
        Some(sibling) => if files.sibling_is_file {
            DaemonPath::Sibling
        } else if files.development {
            DaemonPath::Missing {
                message: text::prefixed(
                    "Kerenzikov daemon was not found in Cargo's debug directory or next to the app executable: ",
                    sibling.as_str(),
                ),
            }
        } else {
            DaemonPath::Missing {
                message: text::prefixed(
                    "Kerenzikov daemon is missing next to the app executable: ",
                    sibling.as_str(),
                ),
            }
        },
    }
}

} // verus!
