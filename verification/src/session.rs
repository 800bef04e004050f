//! Sessions: how they begin, what is told of them, and how they end.

use uuid::Uuid;
use vstd::prelude::*;

use crate::errors::PortixError;
use crate::profile::{refused_with, text_view, RdpProfile};
use crate::text::{chars_of, same_text};

verus! {

/// How a connection stands.
#[derive(Clone, Copy, Debug, PartialEq, Eq, Structural)]
pub enum ConnectionStatus {
    Connecting,
    Connected,
    Disconnected,
    Error,
}

/// A session with a remote desktop.
#[derive(Clone, Debug)]
pub struct RdpSessionInfo {
    pub id: String,
    pub profile_id: String,
    pub width: u16,
    pub height: u16,
}

/// A session with a shell.
#[derive(Clone, Debug)]
pub struct SessionInfo {
    pub id: String,
    pub profile_id: String,
    pub status: ConnectionStatus,
}

/// Tells how a connection stands.
#[derive(Clone, Debug)]
pub struct ConnectionStatusEvent {
    pub session_id: String,
    pub status: ConnectionStatus,
    pub message: Option<String>,
}

/// Tells of an error.
#[derive(Clone, Debug)]
pub struct ErrorEvent {
    pub session_id: Option<String>,
    pub message: String,
}

// ---- Names ------------------------------------------------------------------

/// A hexadecimal digit in lower case.
pub open spec fn hex_char(c: char) -> bool {
    ('0' <= c && c <= '9') || ('a' <= c && c <= 'f')
}

/// Whether `s` has the form of a random identifier: 36 characters, hyphens
/// after 8, 12, 16 and 20 digits, a 4 for its version, and one of four digits
/// for its variant.
pub open spec fn is_session_id(s: Seq<char>) -> bool {
    &&& s.len() == 36
    &&& s[14] == '4'
    &&& s[19] == '8' || s[19] == '9' || s[19] == 'a' || s[19] == 'b'
    &&& forall|i: int|
        0 <= i < 36 ==> if i == 8 || i == 13 || i == 18 || i == 23 {
            #[trigger] s[i] == '-'
        } else {
            hex_char(s[i])
        }
}

/// Calls `Uuid::new_v4` and writes what it gives, which is random; what is said
/// of its form holds of each.
#[verifier::external_body]
fn fresh_id() -> (id: String)
    ensures
        is_session_id(id@),
{
    Uuid::new_v4().to_string()
}

// ---- Beginning --------------------------------------------------------------

/// The session `id` with the remote desktop of `profile`.
pub fn rdp_session_info(id: &str, profile: &RdpProfile) -> (info: RdpSessionInfo)
    ensures
        info.id@ == id@,
        info.profile_id@ == profile.id@,
        info.width == profile.width,
        info.height == profile.height,
{
    RdpSessionInfo {
        id: id.to_owned(),
        profile_id: profile.id.clone(),
        width: profile.width,
        height: profile.height,
    }
}

/// A new session with the remote desktop of `profile`, or why the profile
/// cannot be used.
pub fn begin_rdp_session(profile: &RdpProfile) -> (res: Result<RdpSessionInfo, PortixError>)
    ensures
        refused_with(res, profile@.fault()),
        res matches Ok(info) ==> is_session_id(info.id@) && info.profile_id@ == profile.id@
            && info.width == profile.width && info.height == profile.height,
{
    match profile.validate() {
        Err(error) => Err(error),
        Ok(()) => {
            let id = fresh_id();
            Ok(rdp_session_info(id.as_str(), profile))
        },
    }
}

/// A new session with a shell.
pub fn begin_shell_session(profile_id: &str) -> (info: SessionInfo)
    ensures
        is_session_id(info.id@),
        info.profile_id@ == profile_id@,
        info.status == ConnectionStatus::Connecting,
{
    SessionInfo {
        id: fresh_id(),
        profile_id: profile_id.to_owned(),
        status: ConnectionStatus::Connecting,
    }
}

// ---- Running sessions -------------------------------------------------------

/// A running session under its name.
pub struct SessionEntry<T> {
    pub id: String,
    pub session: T,
}

/// The sessions that run, by name.
pub struct Sessions<T> {
    pub entries: Vec<SessionEntry<T>>,
}

/// What stands under each name; of two entries with one name the later counts.
pub open spec fn contents<T>(entries: Seq<SessionEntry<T>>) -> Map<Seq<char>, T>
    decreases entries.len(),
{
    if entries.len() == 0 {
        Map::empty()
    } else {
        contents(entries.drop_last()).insert(entries.last().id@, entries.last().session)
    }
}

impl<T> View for Sessions<T> {
    type V = Map<Seq<char>, T>;

    open spec fn view(&self) -> Map<Seq<char>, T> {
        contents(self.entries@)
    }
}

proof fn lemma_absent<T>(entries: Seq<SessionEntry<T>>, id: Seq<char>)
    requires
        forall|i: int| 0 <= i < entries.len() ==> (#[trigger] entries[i]).id@ != id,
    ensures
        !contents(entries).contains_key(id),
    decreases entries.len(),
{
    if entries.len() > 0 {
        lemma_absent(entries.drop_last(), id);
    }
}

proof fn lemma_present<T>(entries: Seq<SessionEntry<T>>, id: Seq<char>, n: int)
    requires
        0 <= n < entries.len(),
        entries[n].id@ == id,
        forall|i: int| n < i < entries.len() ==> (#[trigger] entries[i]).id@ != id,
    ensures
        contents(entries).contains_key(id),
        contents(entries)[id] == entries[n].session,
    decreases entries.len(),
{
    if n < entries.len() - 1 {
        lemma_present(entries.drop_last(), id, n);
    }
}

proof fn lemma_removed<T>(entries: Seq<SessionEntry<T>>, n: int)
    requires
        0 <= n < entries.len(),
    ensures
        contents(entries.remove(n)).remove(entries[n].id@) == contents(entries).remove(
            entries[n].id@,
        ),
    decreases entries.len(),
{
    let id = entries[n].id@;
    let fewer = entries.remove(n);
    if n == entries.len() - 1 {
        assert(fewer =~= entries.drop_last());
        assert(contents(fewer).remove(id) =~= contents(entries).remove(id));
    } else {
        let front = entries.drop_last();
        lemma_removed(front, n);
        assert(fewer.drop_last() =~= front.remove(n));
        assert(fewer.last() == entries.last());
        let before = contents(front).remove(id);
        assert(contents(front.remove(n)).remove(id) == before);
        if entries.last().id@ == id {
            assert(contents(fewer).remove(id) =~= before);
            assert(contents(entries).remove(id) =~= before);
        } else {
            let after = before.insert(entries.last().id@, entries.last().session);
            assert(contents(fewer).remove(id) =~= after);
            assert(contents(entries).remove(id) =~= after);
        }
    }
}

impl<T> Sessions<T> {
    /// No session runs.
    pub fn new() -> (sessions: Self)
        ensures
            sessions@ == Map::<Seq<char>, T>::empty(),
    {
        Sessions { entries: Vec::new() }
    }

    /// The session with this name, or that there is none.
    pub fn session(&self, session_id: &str) -> (res: Result<&T, PortixError>)
        ensures
            match res {
                Ok(session) => self@.contains_key(session_id@) && *session == self@[session_id@],
                Err(error) => {
                    &&& !self@.contains_key(session_id@)
                    &&& error matches PortixError::SessionNotFound(id)
                    &&& id@ == session_id@
                },
            },
    {
        let wanted = chars_of(session_id);
        let mut n = self.entries.len();
        while n > 0
            invariant
                wanted@ == session_id@,
                n <= self.entries@.len(),
                forall|i: int|
                    n <= i < self.entries@.len() ==> (#[trigger] self.entries@[i]).id@
                        != session_id@,
            decreases n,
        {
            n -= 1;
            if same_text(wanted.as_slice(), self.entries[n].id.as_str()) {
                proof {
                    lemma_present(self.entries@, session_id@, n as int);
                }
                return Ok(&self.entries[n].session);
            }
        }
        proof {
            lemma_absent(self.entries@, session_id@);
        }
        Err(PortixError::SessionNotFound(session_id.to_owned()))
    }

    /// Forgets the session with this name, which it hands back.
    pub fn remove(&mut self, session_id: &str) -> (res: Option<T>)
        ensures
            final(self)@ == old(self)@.remove(session_id@),
            match res {
                Some(session) => old(self)@.contains_key(session_id@) && session == old(
                    self,
                )@[session_id@],
                None => !old(self)@.contains_key(session_id@),
            },
    {
        let wanted = chars_of(session_id);
        let mut found: Option<T> = None;
        let mut n = self.entries.len();
        while n > 0
            invariant
                wanted@ == session_id@,
                n <= self.entries@.len(),
                forall|i: int|
                    n <= i < self.entries@.len() ==> (#[trigger] self.entries@[i]).id@
                        != session_id@,
                self@.remove(session_id@) == old(self)@.remove(session_id@),
                match found {
                    Some(session) => old(self)@.contains_key(session_id@) && session == old(
                        self,
                    )@[session_id@],
                    None => self.entries@ == old(self).entries@,
                },
            decreases n,
        {
            n -= 1;
            if same_text(wanted.as_slice(), self.entries[n].id.as_str()) {
                let ghost before = self.entries@;
                proof {
                    lemma_present(before, session_id@, n as int);
                    lemma_removed(before, n as int);
                }
                let entry = self.entries.remove(n);
                assert forall|i: int| n <= i < self.entries@.len() implies (
                #[trigger] self.entries@[i]).id@ != session_id@ by {
                    assert(self.entries@[i] == before[i + 1]);
                }
                if found.is_none() {
                    found = Some(entry.session);
                }
            }
        }
        proof {
            lemma_absent(self.entries@, session_id@);
            assert(self@.remove(session_id@) =~= self@);
        }
        found
    }

    /// A session begins to run under a name; one that had it is forgotten.
    pub fn insert(&mut self, session_id: String, session: T)
        ensures
            final(self)@ == old(self)@.insert(session_id@, session),
    {
        let _ = self.remove(session_id.as_str());
        let ghost before = self.entries@;
        let ghost id = session_id@;
        self.entries.push(SessionEntry { id: session_id, session });
        proof {
            assert(self.entries@.drop_last() =~= before);
            assert(self@ =~= old(self)@.insert(id, session));
        }
    }
}

impl<T> Default for Sessions<T> {
    fn default() -> (sessions: Self)
        ensures
            sessions@ == Map::<Seq<char>, T>::empty(),
    {
        Sessions::new()
    }
}

// ---- Telling ----------------------------------------------------------------

/// Tells how a connection stands.
pub fn status_event(session_id: &str, status: ConnectionStatus, message: Option<&str>) -> (event:
    ConnectionStatusEvent)
    ensures
        event.session_id@ == session_id@,
        event.status == status,
        text_view(event.message) == (match message {
            Some(text) => Some(text@),
            None => None,
        }),
{
    let message = match message {
        Some(text) => Some(text.to_owned()),
        None => None,
    };
    ConnectionStatusEvent { session_id: session_id.to_owned(), status, message }
}

/// What is told when a session with a remote desktop has ended, well or with
/// an error: the error first, and then how the connection stands.
pub fn rdp_session_ended(session_id: &str, error: Option<&str>) -> (events: (
    Option<ErrorEvent>,
    ConnectionStatusEvent,
))
    ensures
        events.1.session_id@ == session_id@,
        match error {
            None => events.0 is None && events.1.status == ConnectionStatus::Disconnected
                && text_view(events.1.message) == Some("disconnected"@),
            Some(text) => {
                &&& events.0 matches Some(event) && text_view(event.session_id) == Some(session_id@)
                    && event.message@ == text@
                &&& events.1.status == ConnectionStatus::Error
                &&& text_view(events.1.message) == Some(text@)
            },
        },
{
    match error {
        None => (
            None,
            status_event(session_id, ConnectionStatus::Disconnected, Some("disconnected")),
        ),
        Some(text) => (
            Some(
                ErrorEvent { session_id: Some(session_id.to_owned()), message: text.to_owned() },
            ),
            status_event(session_id, ConnectionStatus::Error, Some(text)),
        ),
    }
}

/// What is told when a session with a shell has ended, well or with an error.
pub fn shell_session_ended(session_id: &str, error: Option<&str>) -> (events: (
    Option<ErrorEvent>,
    ConnectionStatusEvent,
))
    ensures
        events.1.session_id@ == session_id@,
        match error {
            None => events.0 is None && events.1.status == ConnectionStatus::Disconnected
                && events.1.message is None,
            Some(text) => {
                &&& events.0 matches Some(event) && text_view(event.session_id) == Some(session_id@)
                    && event.message@ == text@
                &&& events.1.status == ConnectionStatus::Error
                &&& text_view(events.1.message) == Some(text@)
            },
        },
{
    match error {
        None => (None, status_event(session_id, ConnectionStatus::Disconnected, None)),
        Some(text) => (
            Some(
                ErrorEvent { session_id: Some(session_id.to_owned()), message: text.to_owned() },
            ),
            status_event(session_id, ConnectionStatus::Error, Some(text)),
        ),
    }
}

} // verus!
