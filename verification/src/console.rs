//! The operator console: what a line of text asks of the node.

use crate::identity::strings_equal;
use crate::swarm_dispatch::SwarmCommand;
use vstd::prelude::*;
use vstd::string::StrSliceExecFns;

verus! {

/// Something to tell the operator.
#[derive(Debug, Clone, PartialEq, Eq)]
pub enum Notice {
    AlreadyProvider,
    NotProvider,
    UsageDial,
    UsageDialId,
    UsagePut,
    Unknown(String),
}

/// What a line asks the node to do.
#[derive(Debug, Clone, PartialEq, Eq)]
pub enum ConsoleAction {
    /// Leave the program.
    Quit,
    /// Send this command to the actor that owns the engine.
    Send(SwarmCommand),
    /// Dial the peer with this name through the relay.
    DialThroughRelay(String),
    /// Dial the peer with this name wherever it is known to be.
    DialPeer(String),
    /// Tell the operator.
    Say(Notice),
}

/// An action as a mathematical value.
pub enum ConsoleActionView {
    Quit,
    BeginProviderRole,
    StopProviderRole,
    FindProviders(Seq<char>),
    ListConnections,
    PutTestValue(Seq<char>, Seq<char>),
    GetTestValue(Seq<char>),
    DialThroughRelay(Seq<char>),
    DialPeer(Seq<char>),
    AlreadyProvider,
    NotProvider,
    UsageDial,
    UsageDialId,
    UsagePut,
    Unknown(Seq<char>),
    /// A command that the console never sends.
    Other,
}

/// The key under which a node says that it provides the database.
pub open spec fn database_key() -> Seq<u8> {
    seq![100u8, 98u8]
}

impl View for ConsoleAction {
    type V = ConsoleActionView;

    open spec fn view(&self) -> ConsoleActionView {
        match *self {
            ConsoleAction::Quit => ConsoleActionView::Quit,
            ConsoleAction::Send(SwarmCommand::BeginProviderRole(key)) => if key@
                == database_key() {
                ConsoleActionView::BeginProviderRole
            } else {
                ConsoleActionView::Other
            },
            ConsoleAction::Send(SwarmCommand::StopProviderRole(key)) => if key@ == database_key() {
                ConsoleActionView::StopProviderRole
            } else {
                ConsoleActionView::Other
            },
            ConsoleAction::Send(SwarmCommand::FindProviders(key)) => if vstd::utf8::valid_utf8(
                key@,
            ) {
                ConsoleActionView::FindProviders(vstd::utf8::decode_utf8(key@))
            } else {
                ConsoleActionView::Other
            },
            ConsoleAction::Send(SwarmCommand::ListConnections) => ConsoleActionView::ListConnections,
            ConsoleAction::Send(SwarmCommand::PutTestValue(key, value)) =>
                ConsoleActionView::PutTestValue(key@, value@),
            ConsoleAction::Send(SwarmCommand::GetTestValue(key)) => ConsoleActionView::GetTestValue(
                key@,
            ),
            ConsoleAction::Send(_) => ConsoleActionView::Other,
            ConsoleAction::DialThroughRelay(peer) => ConsoleActionView::DialThroughRelay(peer@),
            ConsoleAction::DialPeer(peer) => ConsoleActionView::DialPeer(peer@),
            ConsoleAction::Say(Notice::AlreadyProvider) => ConsoleActionView::AlreadyProvider,
            ConsoleAction::Say(Notice::NotProvider) => ConsoleActionView::NotProvider,
            ConsoleAction::Say(Notice::UsageDial) => ConsoleActionView::UsageDial,
            ConsoleAction::Say(Notice::UsageDialId) => ConsoleActionView::UsageDialId,
            ConsoleAction::Say(Notice::UsagePut) => ConsoleActionView::UsagePut,
            ConsoleAction::Say(Notice::Unknown(line)) => ConsoleActionView::Unknown(line@),
        }
    }
}

/// Whether a character is white space.
pub open spec fn is_space(c: char) -> bool {
    let u = c as u32;
    ||| 9 <= u <= 13
    ||| u == 0x20
    ||| u == 0x85
    ||| u == 0xa0
    ||| u == 0x1680
    ||| 0x2000 <= u <= 0x200a
    ||| u == 0x2028
    ||| u == 0x2029
    ||| u == 0x202f
    ||| u == 0x205f
    ||| u == 0x3000
}

/// The index of the first character of `s`, from `i` on, that is no white
/// space; the length of `s` where there is none.
pub open spec fn past_spaces(s: Seq<char>, i: int) -> int
    decreases s.len() - i,
{
    if 0 <= i < s.len() && is_space(s[i]) {
        past_spaces(s, i + 1)
    } else {
        i
    }
}

/// The index behind the last character of `s`, before `j` and not before
/// `a`, that is no white space; `a` where there is none.
pub open spec fn before_spaces(s: Seq<char>, a: int, j: int) -> int
    decreases j,
{
    if 0 <= a < j <= s.len() && is_space(s[j - 1]) {
        before_spaces(s, a, j - 1)
    } else {
        j
    }
}

/// `s` without the white space at its start and at its end.
pub open spec fn trimmed(s: Seq<char>) -> Seq<char> {
    let a = past_spaces(s, 0);
    let b = before_spaces(s, a, s.len() as int);
    s.subrange(a, b)
}

/// Whether `s` starts with `prefix`.
pub open spec fn starts_with(s: Seq<char>, prefix: Seq<char>) -> bool {
    prefix.len() <= s.len() && s.subrange(0, prefix.len() as int) == prefix
}

/// The index of the first blank of `s` from `i` on; the length of `s` where
/// there is none.
pub open spec fn first_blank(s: Seq<char>, i: int) -> int
    decreases s.len() - i,
{
    if 0 <= i < s.len() && s[i] != ' ' {
        first_blank(s, i + 1)
    } else {
        i
    }
}

/// What follows the first blank of `s`, if `s` has a blank.
pub open spec fn after_first_blank(s: Seq<char>) -> Option<Seq<char>> {
    let i = first_blank(s, 0);
    if 0 <= i < s.len() {
        Some(s.subrange(i + 1, s.len() as int))
    } else {
        None
    }
}

/// What the line `line` asks for, for a node that provides the database or
/// does not. The line is read without the white space around it.
pub open spec fn action_of(line: Seq<char>, is_db_provider: bool) -> ConsoleActionView {
    let t = trimmed(line);
    if t == "exit"@ || t == "quit"@ || t == "q"@ {
        ConsoleActionView::Quit
    } else if t == "promote db"@ {
        if is_db_provider {
            ConsoleActionView::AlreadyProvider
        } else {
            ConsoleActionView::BeginProviderRole
        }
    } else if t == "demote db"@ {
        if is_db_provider {
            ConsoleActionView::StopProviderRole
        } else {
            ConsoleActionView::NotProvider
        }
    } else if starts_with(t, "get providers "@) {
        ConsoleActionView::FindProviders(t.subrange("get providers "@.len() as int, t.len() as int))
    } else if starts_with(t, "dial_id"@) {
        match after_first_blank(t) {
            Some(peer) => ConsoleActionView::DialPeer(peer),
            None => ConsoleActionView::UsageDialId,
        }
    } else if starts_with(t, "dial"@) {
        match after_first_blank(t) {
            Some(peer) => ConsoleActionView::DialThroughRelay(peer),
            None => ConsoleActionView::UsageDial,
        }
    } else if starts_with(t, "connections"@) {
        ConsoleActionView::ListConnections
    } else if starts_with(t, "put "@) {
        let rest = t.subrange("put "@.len() as int, t.len() as int);
        let i = first_blank(rest, 0);
        if 0 <= i < rest.len() {
            ConsoleActionView::PutTestValue(
                rest.subrange(0, i),
                rest.subrange(i + 1, rest.len() as int),
            )
        } else {
            ConsoleActionView::UsagePut
        }
    } else if starts_with(t, "get "@) {
        ConsoleActionView::GetTestValue(t.subrange("get "@.len() as int, t.len() as int))
    } else {
        ConsoleActionView::Unknown(t)
    }
}

/// Whether the node provides the database once the line was read.
pub open spec fn provider_after(line: Seq<char>, is_db_provider: bool) -> bool {
    match action_of(line, is_db_provider) {
        ConsoleActionView::BeginProviderRole => true,
        ConsoleActionView::StopProviderRole => false,
        _ => is_db_provider,
    }
}

/// Whether a character is white space.
pub fn is_space_char(c: char) -> (r: bool)
    ensures
        r == is_space(c),
{
    let u: u32 = c as u32;
    (9 <= u && u <= 13) || u == 0x20 || u == 0x85 || u == 0xa0 || u == 0x1680 || (0x2000 <= u && u
        <= 0x200a) || u == 0x2028 || u == 0x2029 || u == 0x202f || u == 0x205f || u == 0x3000
}

/// The line without the white space around it.
pub fn trim(line: &str) -> (r: &str)
    ensures
        r@ == trimmed(line@),
{
    let n = line.unicode_len();
    let mut a: usize = 0;
    while a < n && is_space_char(line.get_char(a))
        invariant
            a <= n,
            n == line@.len(),
            past_spaces(line@, 0) == past_spaces(line@, a as int),
        decreases n - a,
    {
        a += 1;
    }
    let mut b: usize = n;
    while b > a && is_space_char(line.get_char(b - 1))
        invariant
            a <= b <= n,
            n == line@.len(),
            before_spaces(line@, a as int, n as int) == before_spaces(line@, a as int, b as int),
        decreases b,
    {
        b -= 1;
    }
    line.substring_char(a, b)
}

/// Whether two pieces of text are the same.
fn same_text(a: &str, b: &str) -> (r: bool)
    ensures
        r == (a@ == b@),
{
    strings_equal(&a.to_owned(), &b.to_owned())
}

/// Whether `s` starts with `prefix`.
fn has_prefix(s: &str, prefix: &str) -> (r: bool)
    ensures
        r == starts_with(s@, prefix@),
{
    let n = prefix.unicode_len();
    if s.unicode_len() < n {
        return false;
    }
    same_text(s.substring_char(0, n), prefix)
}

/// What follows the first `n` characters of `s`.
fn tail(s: &str, n: usize) -> (r: &str)
    requires
        n <= s@.len(),
    ensures
        r@ == s@.subrange(n as int, s@.len() as int),
{
    s.substring_char(n, s.unicode_len())
}

/// Finds the first blank of `s`.
fn find_blank(s: &str) -> (r: usize)
    ensures
        r == first_blank(s@, 0),
        r <= s@.len(),
{
    let n = s.unicode_len();
    let mut i: usize = 0;
    while i < n && s.get_char(i) != ' '
        invariant
            i <= n,
            n == s@.len(),
            first_blank(s@, 0) == first_blank(s@, i as int),
        decreases n - i,
    {
        i += 1;
    }
    i
}

/// The console, which remembers whether this node provides the database.
pub struct Console {
    pub is_db_provider: bool,
}

impl Console {
    /// The console of a node that does not provide the database.
    pub fn new() -> (r: Console)
        ensures
            !r.is_db_provider,
    {
        Console { is_db_provider: false }
    }

    /// Reads one line. A request to provide the database is sent on only
    /// while the node does not provide it, and a request to stop only while
    /// it does; the console remembers which holds.
    pub fn interpret(&mut self, line: &str) -> (r: ConsoleAction)
        ensures
            r@ == action_of(line@, old(self).is_db_provider),
            final(self).is_db_provider == provider_after(line@, old(self).is_db_provider),
    {
        let t = trim(line);
        if same_text(t, "exit") || same_text(t, "quit") || same_text(t, "q") {
            ConsoleAction::Quit
        } else if same_text(t, "promote db") {
            if self.is_db_provider {
                ConsoleAction::Say(Notice::AlreadyProvider)
            } else {
                self.is_db_provider = true;
                ConsoleAction::Send(SwarmCommand::BeginProviderRole(database_key_bytes()))
            }
        } else if same_text(t, "demote db") {
            if self.is_db_provider {
                self.is_db_provider = false;
                ConsoleAction::Send(SwarmCommand::StopProviderRole(database_key_bytes()))
            } else {
                ConsoleAction::Say(Notice::NotProvider)
            }
        } else if has_prefix(t, "get providers ") {
            let key = tail(t, "get providers ".unicode_len());
            proof {
                vstd::utf8::encode_utf8_valid_utf8(key@);
                vstd::utf8::encode_utf8_decode_utf8(key@);
            }
            ConsoleAction::Send(SwarmCommand::FindProviders(key.as_bytes_vec()))
        } else if has_prefix(t, "dial_id") {
            let i = find_blank(t);
            if i < t.unicode_len() {
                ConsoleAction::DialPeer(tail(t, i + 1).to_owned())
            } else {
                ConsoleAction::Say(Notice::UsageDialId)
            }
        } else if has_prefix(t, "dial") {
            let i = find_blank(t);
            if i < t.unicode_len() {
                ConsoleAction::DialThroughRelay(tail(t, i + 1).to_owned())
            } else {
                ConsoleAction::Say(Notice::UsageDial)
            }
        } else if has_prefix(t, "connections") {
            ConsoleAction::Send(SwarmCommand::ListConnections)
        } else if has_prefix(t, "put ") {
            let rest = tail(t, "put ".unicode_len());
            let i = find_blank(rest);
            if i < rest.unicode_len() {
                ConsoleAction::Send(
                    SwarmCommand::PutTestValue(
                        rest.substring_char(0, i).to_owned(),
                        tail(rest, i + 1).to_owned(),
                    ),
                )
            } else {
                ConsoleAction::Say(Notice::UsagePut)
            }
        } else if has_prefix(t, "get ") {
            ConsoleAction::Send(
                SwarmCommand::GetTestValue(tail(t, "get ".unicode_len()).to_owned()),
            )
        } else {
            ConsoleAction::Say(Notice::Unknown(t.to_owned()))
        }
    }
}

/// The key under which a node says that it provides the database.
pub fn database_key_bytes() -> (r: Vec<u8>)
    ensures
        r@ == database_key(),
{
    let mut key: Vec<u8> = Vec::new();
    key.push(100);
    key.push(98);
    assert(key@ =~= database_key());
    key
}

/// The console sends a request to stop providing only while the node
/// provides, and a request to provide only while it does not; each of the
/// two turns what the console remembers, and nothing else does. So a
/// request to stop that no request to provide went before is never sent on.
pub proof fn lemma_provider_requests_alternate(line: Seq<char>, is_db_provider: bool)
    ensures
        action_of(line, is_db_provider) is StopProviderRole ==> is_db_provider && !provider_after(
            line,
            is_db_provider,
        ),
        action_of(line, is_db_provider) is BeginProviderRole ==> !is_db_provider && provider_after(
            line,
            is_db_provider,
        ),
        !(action_of(line, is_db_provider) is StopProviderRole) && !(action_of(line, is_db_provider)
            is BeginProviderRole) ==> provider_after(line, is_db_provider) == is_db_provider,
{
}

/// Asked to stop providing, a node that does not provide is told so and
/// sends nothing; asked to provide and then to stop, a node sends both
/// requests and ends where it began, not providing.
pub proof fn lemma_demote_is_safe(promote: Seq<char>, demote: Seq<char>)
    requires
        trimmed(promote) == "promote db"@,
        trimmed(demote) == "demote db"@,
    ensures
        action_of(demote, false) == ConsoleActionView::NotProvider,
        !provider_after(demote, false),
        action_of(promote, false) == ConsoleActionView::BeginProviderRole,
        action_of(demote, provider_after(promote, false)) == ConsoleActionView::StopProviderRole,
        !provider_after(demote, provider_after(promote, false)),
{
    reveal_strlit("promote db");
    reveal_strlit("demote db");
    reveal_strlit("exit");
    reveal_strlit("quit");
    reveal_strlit("q");
}

} // verus!
