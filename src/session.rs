use crate::typing::{fresh_users, lists_exactly, TypingTracker};
use vstd::prelude::*;
use vstd::string::{StrSliceExecFns, StringExecFns};

verus! {

/// How long, in milliseconds, a typing signal stays on display.
pub const TYPING_WINDOW_MS: u64 = 2000;

/// The payload of a frame: a chat line or a change of typing status.
#[derive(Debug, Clone, PartialEq, Eq)]
pub enum Envelope {
    Chat { username: String, message: String },
    Typing { username: String, is_typing: bool },
}

/// What a client's receiver got from its connection. A binary frame reaches
/// the session once it has been opened and decoded; one that fails either step
/// is dropped before it gets here.
#[derive(Debug, Clone, PartialEq, Eq)]
pub enum Received {
    Envelope(Envelope),
    /// A text frame, shown as it is, without decryption.
    Text(String),
    /// A frame of another kind.
    Other,
}

/// A whitespace character, as `char::is_whitespace` defines it.
pub open spec fn is_space(c: char) -> bool {
    ('\u{9}' <= c && c <= '\u{d}') || c == ' ' || c == '\u{85}' || c == '\u{a0}' || c == '\u{1680}'
        || ('\u{2000}' <= c && c <= '\u{200a}') || c == '\u{2028}' || c == '\u{2029}' || c == '\u{202f}'
        || c == '\u{205f}' || c == '\u{3000}'
}

/// Whether `s` holds nothing but whitespace.
pub open spec fn is_blank(s: Seq<char>) -> bool {
    forall|i: int| 0 <= i < s.len() ==> is_space(#[trigger] s[i])
}

/// The line shown for a chat message.
pub open spec fn chat_text(username: Seq<char>, message: Seq<char>) -> Seq<char> {
    username + ": "@ + message
}

/// The names of `users`, separated by a comma and a space.
pub open spec fn joined(users: Seq<String>) -> Seq<char>
    decreases users.len(),
{
    if users.len() == 0 {
        Seq::empty()
    } else if users.len() == 1 {
        users[0]@
    } else {
        joined(users.drop_last()) + ", "@ + users.last()@
    }
}

/// The line shown while `users` are typing.
pub open spec fn typing_text(users: Seq<String>) -> Seq<char> {
    "\u{1f914} "@ + joined(users) + (if users.len() > 1 { " are typing..."@ } else { " is typing..."@ })
}

/// The line shown for a text frame.
pub open spec fn text_frame_text(text: Seq<char>) -> Seq<char> {
    "Received (Text): "@ + text
}

fn is_space_char(c: char) -> (r: bool)
    ensures
        r == is_space(c),
{
    ('\u{9}' <= c && c <= '\u{d}') || c == ' ' || c == '\u{85}' || c == '\u{a0}' || c == '\u{1680}'
        || ('\u{2000}' <= c && c <= '\u{200a}') || c == '\u{2028}' || c == '\u{2029}' || c == '\u{202f}'
        || c == '\u{205f}' || c == '\u{3000}'
}

/// Whether `s` holds nothing but whitespace.
pub fn blank(s: &str) -> (r: bool)
    ensures
        r == is_blank(s@),
{
    let n = s.unicode_len();
    let mut i: usize = 0;
    while i < n
        invariant
            n == s@.len(),
            i <= n,
            forall|j: int| 0 <= j < i ==> is_space(#[trigger] s@[j]),
        decreases n - i,
    {
        if !is_space_char(s.get_char(i)) {
            return false;
        }
        i = i + 1;
    }
    true
}

/// The line shown for a chat message from `username`.
pub fn chat_line(username: &str, message: &str) -> (r: String)
    ensures
        r@ == chat_text(username@, message@),
{
    let mut r = <String as StringExecFns>::from_str(username);
    r.append(": ");
    r.append(message);
    r
}

/// The line shown while `users` are typing; none when nobody is.
pub fn typing_line(users: &Vec<String>) -> (r: Option<String>)
    ensures
        users@.len() == 0 ==> r is None,
        users@.len() > 0 ==> r is Some && r->Some_0@ == typing_text(users@),
{
    if users.len() == 0 {
        return None;
    }
    let mut names = <String as StringExecFns>::from_str(users[0].as_str());
    let mut i: usize = 1;
    assert(users@.subrange(0, 1).drop_last() =~= users@.subrange(0, 0));
    while i < users.len()
        invariant
            1 <= i <= users@.len(),
            names@ == joined(users@.subrange(0, i as int)),
        decreases users@.len() - i,
    {
        names.append(", ");
        names.append(users[i].as_str());
        assert(users@.subrange(0, i + 1).drop_last() =~= users@.subrange(0, i as int));
        i = i + 1;
    }
    assert(users@.subrange(0, users@.len() as int) =~= users@);
    let mut r = <String as StringExecFns>::from_str("\u{1f914} ");
    r.append(names.as_str());
    if users.len() > 1 {
        r.append(" are typing...");
    } else {
        r.append(" is typing...");
    }
    Some(r)
}

/// The line shown for a text frame.
pub fn text_frame_line(text: &str) -> (r: String)
    ensures
        r@ == text_frame_text(text@),
{
    let mut r = <String as StringExecFns>::from_str("Received (Text): ");
    r.append(text);
    r
}

/// The decisions of one client connection: what it sends for a line of input,
/// and what it shows for what it receives.
pub struct ClientSession {
    username: String,
    typing: TypingTracker,
}

impl ClientSession {
    /// The session is consistent.
    pub closed spec fn wf(&self) -> bool {
        self.typing.wf()
    }

    /// The name this session chats under.
    pub closed spec fn user(&self) -> Seq<char> {
        self.username@
    }

    /// Who this session currently shows as typing, with the time of each
    /// user's signal.
    pub closed spec fn typing_view(&self) -> Map<Seq<char>, u64> {
        self.typing@
    }

    /// A session chatting as `username`, with nobody typing.
    pub fn new(username: String) -> (r: ClientSession)
        ensures
            r.wf(),
            r.user() == username@,
            r.typing_view() == Map::<Seq<char>, u64>::empty(),
    {
        ClientSession { username, typing: TypingTracker::new() }
    }

    /// The name this session chats under.
    pub fn username(&self) -> (r: &str)
        ensures
            r@ == self.user(),
    {
        self.username.as_str()
    }

    /// What to send for a line of local input: nothing for a blank line, else
    /// a chat message under this session's name.
    pub fn outgoing(&self, line: &str) -> (r: Option<Envelope>)
        ensures
            is_blank(line@) ==> r is None,
            !is_blank(line@) ==> (r matches Some(Envelope::Chat { username, message })
                && username@ == self.user() && message@ == line@),
    {
        if blank(line) {
            None
        } else {
            Some(
                Envelope::Chat {
                    username: <String as StringExecFns>::from_str(self.username.as_str()),
                    message: <String as StringExecFns>::from_str(line),
                },
            )
        }
    }

    /// Handles what the receiver got at time `now` (in milliseconds), and
    /// returns the line to show, if any. A typing signal updates who is shown
    /// as typing, and drops every signal older than the display window.
    pub fn receive(&mut self, received: Received, now: u64) -> (r: Option<String>)
        requires
            old(self).wf(),
        ensures
            final(self).wf(),
            final(self).user() == old(self).user(),
            received matches Received::Envelope(Envelope::Chat { username, message }) ==> {
                &&& r is Some
                &&& r->Some_0@ == chat_text(username@, message@)
                &&& final(self).typing_view() == old(self).typing_view()
            },
            received matches Received::Envelope(Envelope::Typing { username, is_typing }) ==> {
                let signalled = if is_typing {
                    old(self).typing_view().insert(username@, now)
                } else {
                    old(self).typing_view().remove(username@)
                };
                let fresh = fresh_users(signalled, now, TYPING_WINDOW_MS);
                &&& final(self).typing_view() == signalled.restrict(fresh)
                &&& (r is None <==> fresh.is_empty())
                &&& r is Some ==> exists|users: Seq<String>| lists_exactly(users, fresh) && r->Some_0@ == typing_text(users)
            },
            received matches Received::Text(text) ==> (r is Some && r->Some_0@ == text_frame_text(text@)
                && final(self).typing_view() == old(self).typing_view()),
            received is Other ==> r is None && final(self).typing_view() == old(self).typing_view(),
    {
        match received {
            Received::Envelope(Envelope::Chat { username, message }) => {
                Some(chat_line(username.as_str(), message.as_str()))
            },
            Received::Envelope(Envelope::Typing { username, is_typing }) => {
                let ghost u = username@;
                self.typing.set_typing(username, is_typing, now);
                let ghost signalled = self.typing@;
                let users = self.typing.active_users(now, TYPING_WINDOW_MS);
                proof {
                    let fresh = fresh_users(signalled, now, TYPING_WINDOW_MS);
                    if users@.len() == 0 {
                        assert(fresh =~= Set::<Seq<char>>::empty());
                    } else {
                        assert(fresh.contains(users@[0]@));
                    }
                }
                typing_line(&users)
            },
            Received::Text(text) => Some(text_frame_line(text.as_str())),
            Received::Other => None,
        }
    }
}

} // verus!
