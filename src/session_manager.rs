//! The registry of protocol clients and the decisions of the session manager.
//!
//! Every operation takes the manager's state and an event, updates the state and returns the
//! actions that the caller performs: protocol calls, file system work, persistence and the
//! hand-over to the interactive login flow. User-interface state (which surface is visible and
//! which session is selected) is kept here as plain values.
use vstd::prelude::*;

use crate::database::{
    candidate_name, generate_database_dir_base_name, is_generated_name, names_of, DatabaseInfo, DatadirState,
};
use crate::recently_used::{
    distinct_names, has_name, lemma_without_first_distinct, lemma_without_first_keeps, promote, promoted,
    remove_from_vec, without_first,
};

verus! {

/// The authorization states that the protocol reports for a client.
#[derive(Clone, Copy, Debug, PartialEq, Eq, Structural)]
pub enum AuthorizationState {
    WaitTdlibParameters,
    WaitEncryptionKey,
    WaitPhoneNumber,
    WaitCode,
    WaitOtherDeviceConfirmation,
    WaitRegistration,
    WaitPassword,
    Ready,
    LoggingOut,
    Closing,
    Closed,
}

/// An update that the protocol delivers for one client.
#[derive(Clone, Copy, Debug, PartialEq, Eq, Structural)]
pub enum Update {
    /// The client's authorization state changed.
    AuthorizationState(AuthorizationState),
    /// Any other update; it belongs to the client's session.
    Other,
}

/// The lifecycle state of a client.
#[derive(Clone, Copy, Debug, PartialEq, Eq, Structural)]
pub enum ClientState {
    /// The client is authorizing. `maybe_authorized` is set for the sessions found in the data
    /// directory at startup: they are expected to become ready without user interaction.
    Auth { maybe_authorized: bool },
    /// The client is logged in and has a session.
    LoggedIn,
    /// The client is logging out.
    LoggingOut,
}

/// A protocol client known to the manager.
#[derive(Clone, Debug, PartialEq, Eq)]
pub struct Client {
    /// The handle that the protocol assigned to the client.
    pub client_id: i32,
    /// The account's database.
    pub database_info: DatabaseInfo,
    /// The lifecycle state.
    pub state: ClientState,
}

impl Client {
    /// A copy that is equal to `self`.
    pub fn duplicate(&self) -> (r: Client)
        ensures
            r == *self,
    {
        Client { client_id: self.client_id, database_info: self.database_info.duplicate(), state: self.state }
    }
}

/// The own profile of a logged-in account.
#[derive(Clone, Debug, PartialEq, Eq)]
pub struct User {
    /// The user identifier.
    pub id: i64,
    /// The phone number as the protocol reports it (it may hold spaces).
    pub phone_number: String,
}

impl User {
    /// A copy that is equal to `self`.
    pub fn duplicate(&self) -> (r: User)
        ensures
            r == *self,
    {
        User { id: self.id, phone_number: self.phone_number.clone() }
    }
}

/// A logged-in session in the set of visible sessions.
#[derive(Clone, Debug, PartialEq, Eq)]
pub struct SessionEntry {
    /// The client of the session.
    pub client_id: i32,
    /// The account's database.
    pub database_info: DatabaseInfo,
    /// The account's own profile.
    pub me: User,
}

/// Which surface is shown.
#[derive(Clone, Copy, Debug, PartialEq, Eq, Structural)]
pub enum Surface {
    /// The interactive login flow.
    Login,
    /// The logged-in sessions.
    Sessions,
}

/// What the caller has to do after an operation of the manager.
#[derive(Clone, Debug, PartialEq, Eq)]
pub enum Action {
    /// Create a protocol client and register it with `add_existing_session`.
    AddExistingSession { database_info: DatabaseInfo },
    /// Create a protocol client and register it with `add_new_session`.
    StartNewSession { use_test_dc: bool },
    /// Set the protocol log verbosity for the client.
    SetLogVerbosity { client_id: i32 },
    /// Hand the client to the login flow.
    LoginClient { client_id: i32, database_info: DatabaseInfo },
    /// Forward the authorization state just received for the client to the login flow.
    SetAuthorizationState { client_id: i32 },
    /// Send the stored connection parameters for the database.
    SendTdlibParameters { client_id: i32, database_info: DatabaseInfo },
    /// Send the empty database encryption key.
    CheckEncryptionKey { client_id: i32 },
    /// Fetch the account's own profile, then call `add_logged_in_session`.
    FetchMe { client_id: i32, visible: bool },
    /// Log the client out.
    LogOut { client_id: i32 },
    /// Delete the database directory.
    RemoveDirectory { directory_base_name: String },
    /// Persist the order of recently used sessions.
    SaveRecentlyUsed,
    /// Set the client's online status.
    SetOnline { client_id: i32, value: bool },
    /// Load the chats of the client's session.
    FetchChats { client_id: i32 },
    /// Enable notifications for the client.
    EnableNotifications { client_id: i32 },
    /// Hand the update just received to the client's session.
    ForwardUpdate { client_id: i32 },
}

/// Why an operation of the manager did nothing.
#[derive(Clone, Copy, Debug, PartialEq, Eq, Structural)]
pub enum ManagerError {
    /// No client with that handle is registered.
    UnknownClient,
    /// A client or a session with that handle is known already.
    ClientExists,
    /// The database directory belongs to a known client or session already.
    DirectoryInUse,
}

/// The session manager's state.
pub struct SessionManager {
    /// Directory base names of the sessions, the most recently used last.
    pub recently_used_sessions: Vec<String>,
    /// The number of sessions found in the data directory at startup.
    pub initial_sessions_to_handle: usize,
    /// The registered clients, one record per handle.
    pub clients: Vec<Client>,
    /// The logged-in sessions, in the order in which they were added.
    pub sessions: Vec<SessionEntry>,
    /// The visible surface.
    pub surface: Surface,
    /// The position of the selected session, when there is one.
    pub visible_session: usize,
    /// The data center environment configured for the process.
    pub test_dc: bool,
}

/// Whether a client with handle `id` is in `s`.
pub open spec fn has_client(s: Seq<Client>, id: i32) -> bool {
    exists|i: int| 0 <= i < s.len() && #[trigger] s[i].client_id == id
}

/// The position of the client with handle `id` in `s` (meaningful when there is one).
pub open spec fn client_index(s: Seq<Client>, id: i32) -> int {
    choose|i: int| 0 <= i < s.len() && #[trigger] s[i].client_id == id
}

/// No two clients share a handle.
pub open spec fn unique_clients(s: Seq<Client>) -> bool {
    forall|i: int, j: int|
        0 <= i < s.len() && 0 <= j < s.len() && i != j ==> #[trigger] s[i].client_id != #[trigger] s[j].client_id
}

/// Whether a session of the client `id` is in `s`.
pub open spec fn has_session(s: Seq<SessionEntry>, id: i32) -> bool {
    exists|i: int| 0 <= i < s.len() && #[trigger] s[i].client_id == id
}

/// The position of the session of client `id` in `s` (meaningful when there is one).
pub open spec fn session_index(s: Seq<SessionEntry>, id: i32) -> int {
    choose|i: int| 0 <= i < s.len() && #[trigger] s[i].client_id == id
}

/// No two sessions share a client.
pub open spec fn unique_sessions(s: Seq<SessionEntry>) -> bool {
    forall|i: int, j: int|
        0 <= i < s.len() && 0 <= j < s.len() && i != j ==> #[trigger] s[i].client_id != #[trigger] s[j].client_id
}

/// The directory names of the registered clients.
pub open spec fn client_dir_names(s: Seq<Client>) -> Seq<Seq<char>> {
    s.map_values(|c: Client| c.database_info.directory_base_name@)
}

/// The online status that each logged-in client of `s` gets when `active` becomes the active
/// client, in registry order.
pub open spec fn online_actions(s: Seq<Client>, active: i32) -> Seq<Action>
    decreases s.len(),
{
    if s.len() == 0 {
        Seq::empty()
    } else {
        let rest = online_actions(s.drop_last(), active);
        let c = s.last();
        if c.state == ClientState::LoggedIn {
            rest.push(Action::SetOnline { client_id: c.client_id, value: c.client_id == active })
        } else {
            rest
        }
    }
}

/// The order of recently used sessions and the actions after the selected session changed:
/// the selected client goes online and the others offline and, when the sessions are shown,
/// the selected session becomes the most recently used one and the order is persisted.
pub open spec fn active_change(
    clients: Seq<Client>,
    sessions: Seq<SessionEntry>,
    visible: int,
    surface: Surface,
    recent: Seq<String>,
) -> (Seq<String>, Seq<Action>) {
    if 0 <= visible < sessions.len() {
        let s = sessions[visible];
        let online = online_actions(clients, s.client_id);
        if surface == Surface::Sessions {
            (promoted(recent, s.database_info.directory_base_name), online.push(Action::SaveRecentlyUsed))
        } else {
            (recent, online)
        }
    } else {
        (recent, Seq::empty())
    }
}

/// The actions of a successful operation, or `None` for an error.
pub open spec fn ok_actions(r: Result<Vec<Action>, ManagerError>) -> Option<Seq<Action>> {
    match r {
        Ok(a) => Some(a@),
        Err(_) => None,
    }
}

proof fn lemma_client_index(s: Seq<Client>, i: int)
    requires
        unique_clients(s),
        0 <= i < s.len(),
    ensures
        has_client(s, s[i].client_id),
        client_index(s, s[i].client_id) == i,
{
    assert(s[i].client_id == s[i].client_id);
}

proof fn lemma_session_index(s: Seq<SessionEntry>, i: int)
    requires
        unique_sessions(s),
        0 <= i < s.len(),
    ensures
        has_session(s, s[i].client_id),
        session_index(s, s[i].client_id) == i,
{
    assert(s[i].client_id == s[i].client_id);
}

/// All fields but the clients are equal.
pub open spec fn same_except_clients(a: SessionManager, b: SessionManager) -> bool {
    &&& a.recently_used_sessions == b.recently_used_sessions
    &&& a.initial_sessions_to_handle == b.initial_sessions_to_handle
    &&& a.sessions == b.sessions
    &&& a.surface == b.surface
    &&& a.visible_session == b.visible_session
    &&& a.test_dc == b.test_dc
}

/// `k` is the session selected after a logout: the first one whose directory is the most
/// recently used, or the first one when no session matches.
pub open spec fn fallback_index(sessions: Seq<SessionEntry>, recent: Seq<String>, k: int) -> bool {
    if recent.len() > 0 && exists|i: int|
        0 <= i < sessions.len() && #[trigger] sessions[i].database_info.directory_base_name@ == recent.last()@ {
        &&& 0 <= k < sessions.len()
        &&& sessions[k].database_info.directory_base_name@ == recent.last()@
        &&& forall|j: int|
            0 <= j < k ==> #[trigger] sessions[j].database_info.directory_base_name@ != recent.last()@
    } else {
        k == 0
    }
}

/// The client at position `p` with a new lifecycle state.
pub open spec fn with_state(clients: Seq<Client>, p: int, state: ClientState) -> Seq<Client> {
    clients.update(
        p,
        Client { client_id: clients[p].client_id, database_info: clients[p].database_info, state },
    )
}

/// The client at position `p` starts logging out. A logged-in client leaves the visible
/// sessions and the recently used order; another session is selected or, if none is left, a
/// new session is started; the order is persisted.
pub open spec fn logging_out_step(pre: SessionManager, post: SessionManager, p: int, actions: Seq<Action>) -> bool {
    let c = pre.clients@[p];
    let clients1 = with_state(pre.clients@, p, ClientState::LoggingOut);
    &&& post.clients@ == clients1
    &&& post.initial_sessions_to_handle == pre.initial_sessions_to_handle
    &&& post.test_dc == pre.test_dc
    &&& post.surface == pre.surface
    &&& if c.state != ClientState::LoggedIn {
        &&& post.sessions == pre.sessions
        &&& post.recently_used_sessions == pre.recently_used_sessions
        &&& post.visible_session == pre.visible_session
        &&& actions == Seq::<Action>::empty()
    } else {
        let sessions1 = if has_session(pre.sessions@, c.client_id) {
            pre.sessions@.remove(session_index(pre.sessions@, c.client_id))
        } else {
            pre.sessions@
        };
        let recent1 = without_first(pre.recently_used_sessions@, c.database_info.directory_base_name@);
        &&& post.sessions@ == sessions1
        &&& if sessions1.len() > 0 {
            let change = active_change(clients1, sessions1, post.visible_session as int, pre.surface, recent1);
            &&& fallback_index(sessions1, recent1, post.visible_session as int)
            &&& post.recently_used_sessions@ == change.0
            &&& actions == change.1.push(Action::SaveRecentlyUsed)
        } else {
            &&& post.recently_used_sessions@ == recent1
            &&& post.visible_session == 0
            &&& actions == seq![
                Action::StartNewSession { use_test_dc: pre.test_dc },
                Action::SaveRecentlyUsed,
            ]
        }
    }
}

/// What an authorization state received for client `id` does.
pub open spec fn authorization_step(
    pre: SessionManager,
    post: SessionManager,
    state: AuthorizationState,
    id: i32,
    r: Result<Vec<Action>, ManagerError>,
) -> bool {
    if !has_client(pre.clients@, id) {
        r == Err::<Vec<Action>, ManagerError>(ManagerError::UnknownClient) && post == pre
    } else {
        let p = client_index(pre.clients@, id);
        let c = pre.clients@[p];
        &&& ok_actions(r) is Some
        &&& {
            let a = ok_actions(r)->0;
            if state == AuthorizationState::Closed {
                &&& post.clients@ == pre.clients@.remove(p)
                &&& same_except_clients(pre, post)
                &&& a == if c.state == ClientState::LoggingOut {
                    seq![Action::RemoveDirectory { directory_base_name: c.database_info.directory_base_name }]
                } else {
                    Seq::<Action>::empty()
                }
            } else if state == AuthorizationState::LoggingOut {
                logging_out_step(pre, post, p, a)
            } else {
                match c.state {
                    ClientState::Auth { maybe_authorized } => {
                        if !maybe_authorized {
                            post == pre && a == seq![Action::SetAuthorizationState { client_id: id }]
                        } else if state == AuthorizationState::WaitTdlibParameters {
                            post == pre && a == seq![
                                Action::SendTdlibParameters { client_id: id, database_info: c.database_info },
                            ]
                        } else if state == AuthorizationState::WaitEncryptionKey {
                            post == pre && a == seq![Action::CheckEncryptionKey { client_id: id }]
                        } else if state == AuthorizationState::Ready {
                            let recent = pre.recently_used_sessions@;
                            let last_used = recent.len() > 0 && recent.last()@
                                == c.database_info.directory_base_name@;
                            post == pre && a == seq![Action::FetchMe { client_id: id, visible: last_used }]
                        } else if pre.test_dc == c.database_info.use_test_dc
                            && pre.initial_sessions_to_handle == 1 {
                            &&& post.clients@ == with_state(
                                pre.clients@,
                                p,
                                ClientState::Auth { maybe_authorized: false },
                            )
                            &&& same_except_clients(pre, post)
                            &&& a == seq![
                                Action::LoginClient { client_id: id, database_info: c.database_info },
                                Action::SetAuthorizationState { client_id: id },
                            ]
                        } else {
                            post == pre && a == seq![Action::LogOut { client_id: id }]
                        }
                    },
                    _ => post == pre && a == Seq::<Action>::empty(),
                }
            }
        }
    }
}

/// Whether some client of `s` is authorizing.
pub open spec fn any_authorizing(s: Seq<Client>) -> bool {
    exists|i: int| 0 <= i < s.len() && #[trigger] s[i].state is Auth
}

/// What the arrival of the own profile `me` of client `id` does: the client becomes logged in,
/// its chats are loaded and its session joins the visible set. The session is selected and the
/// sessions are shown only when no client is still authorizing, and then when it is the only
/// session, when `visible` asks for it, or when the sessions are not shown yet; the first
/// session is selected in any case. Notifications are enabled. When the profile arrives again
/// for a client that has its session already, the client is marked logged in and its session
/// stays as it is.
pub open spec fn logged_in_step(
    pre: SessionManager,
    post: SessionManager,
    id: i32,
    me: User,
    visible: bool,
    r: Result<Vec<Action>, ManagerError>,
) -> bool {
    if !has_client(pre.clients@, id) {
        r == Err::<Vec<Action>, ManagerError>(ManagerError::UnknownClient) && post == pre
    } else {
        let p = client_index(pre.clients@, id);
        let clients1 = with_state(pre.clients@, p, ClientState::LoggedIn);
        &&& ok_actions(r) is Some
        &&& post.clients@ == clients1
        &&& post.initial_sessions_to_handle == pre.initial_sessions_to_handle
        &&& post.test_dc == pre.test_dc
        &&& if has_session(pre.sessions@, id) {
            &&& same_except_clients(pre, post)
            &&& ok_actions(r)->0 == seq![
                Action::FetchChats { client_id: id },
                Action::EnableNotifications { client_id: id },
            ]
        } else {
            let entry = SessionEntry { client_id: id, database_info: pre.clients@[p].database_info, me };
            let sessions1 = pre.sessions@.push(entry);
            let switch = !any_authorizing(clients1) && (visible || sessions1.len() == 1 || pre.surface
                != Surface::Sessions);
            &&& post.sessions@ == sessions1
            &&& if switch {
                let change = active_change(
                    clients1,
                    sessions1,
                    pre.sessions@.len() as int,
                    Surface::Sessions,
                    pre.recently_used_sessions@,
                );
                &&& post.surface == Surface::Sessions
                &&& post.visible_session == pre.sessions@.len()
                &&& post.recently_used_sessions@ == change.0
                &&& ok_actions(r)->0 == seq![Action::FetchChats { client_id: id }] + change.1.push(
                    Action::EnableNotifications { client_id: id },
                )
            } else if pre.sessions@.len() == 0 {
                let change = active_change(clients1, sessions1, 0, pre.surface, pre.recently_used_sessions@);
                &&& post.surface == pre.surface
                &&& post.visible_session == 0
                &&& post.recently_used_sessions@ == change.0
                &&& ok_actions(r)->0 == seq![Action::FetchChats { client_id: id }] + change.1.push(
                    Action::EnableNotifications { client_id: id },
                )
            } else {
                &&& post.surface == pre.surface
                &&& post.visible_session == pre.visible_session
                &&& post.recently_used_sessions == pre.recently_used_sessions
                &&& ok_actions(r)->0 == seq![
                    Action::FetchChats { client_id: id },
                    Action::EnableNotifications { client_id: id },
                ]
            }
        }
    }
}

/// Whether the character is a decimal digit.
pub open spec fn is_digit(c: char) -> bool {
    '0' <= c && c <= '9'
}

/// The decimal digits of a phone number, in their order.
pub open spec fn digits_of(s: Seq<char>) -> Seq<char>
    decreases s.len(),
{
    if s.len() == 0 {
        Seq::empty()
    } else if is_digit(s.last()) {
        digits_of(s.drop_last()).push(s.last())
    } else {
        digits_of(s.drop_last())
    }
}

/// Whether the session is of the account with the given environment and phone number digits.
pub open spec fn session_matches(s: SessionEntry, on_test_dc: bool, digits: Seq<char>) -> bool {
    s.database_info.use_test_dc == on_test_dc && digits_of(s.me.phone_number@) == digits
}

/// The logged-in client that is shown, if the sessions are shown.
pub open spec fn active_client(m: SessionManager) -> Option<i32> {
    if m.surface == Surface::Sessions && m.visible_session < m.sessions@.len() {
        Some(m.sessions@[m.visible_session as int].client_id)
    } else {
        None
    }
}

/// The handles of the clients of `s` that are authorizing or logged in, in registry order.
pub open spec fn closing_ids(s: Seq<Client>) -> Seq<i32>
    decreases s.len(),
{
    if s.len() == 0 {
        Seq::empty()
    } else if s.last().state is LoggingOut {
        closing_ids(s.drop_last())
    } else {
        closing_ids(s.drop_last()).push(s.last().client_id)
    }
}

/// The decimal digits of a phone number.
pub fn phone_digits(s: &String) -> (r: String)
    ensures
        r@ == digits_of(s@),
{
    let text = s.as_str();
    let n = text.unicode_len();
    let mut out = String::new();
    let mut i: usize = 0;
    while i < n
        invariant
            n == text@.len(),
            text@ == s@,
            i <= n,
            out@ == digits_of(text@.subrange(0, i as int)),
        decreases n - i,
    {
        let c = text.get_char(i);
        assert(text@.subrange(0, i + 1).drop_last() =~= text@.subrange(0, i as int));
        if '0' <= c && c <= '9' {
            let one = text.substring_char(i, i + 1);
            assert(one@ =~= seq![c]);
            out.append(one);
        }
        i = i + 1;
    }
    assert(text@.subrange(0, n as int) =~= text@);
    out
}

/// The directory names of the sessions.
pub open spec fn session_dir_names(s: Seq<SessionEntry>) -> Seq<Seq<char>> {
    s.map_values(|e: SessionEntry| e.database_info.directory_base_name@)
}

/// Whether a client or a session of `c` and `s` uses the directory `name`.
pub open spec fn dir_in_use(c: Seq<Client>, s: Seq<SessionEntry>, name: Seq<char>) -> bool {
    (exists|i: int| 0 <= i < c.len() && #[trigger] c[i].database_info.directory_base_name@ == name) || (
    exists|j: int| 0 <= j < s.len() && #[trigger] s[j].database_info.directory_base_name@ == name)
}

/// Directory names identify accounts: no two clients and no two sessions share one, a
/// client and a session with the same directory have the same handle, and a client and a
/// session with the same handle have the same database.
pub open spec fn accounts_consistent(c: Seq<Client>, s: Seq<SessionEntry>) -> bool {
    &&& forall|i: int, j: int|
        0 <= i < c.len() && 0 <= j < c.len() && i != j ==> #[trigger] c[i].database_info.directory_base_name@
            != #[trigger] c[j].database_info.directory_base_name@
    &&& forall|i: int, j: int|
        0 <= i < s.len() && 0 <= j < s.len() && i != j ==> #[trigger] s[i].database_info.directory_base_name@
            != #[trigger] s[j].database_info.directory_base_name@
    &&& forall|i: int, j: int|
        #![trigger c[i], s[j]]
        0 <= i < c.len() && 0 <= j < s.len() && c[i].database_info.directory_base_name@
            == s[j].database_info.directory_base_name@ ==> c[i].client_id == s[j].client_id
    &&& forall|i: int, j: int|
        #![trigger c[i], s[j]]
        0 <= i < c.len() && 0 <= j < s.len() && c[i].client_id == s[j].client_id ==> c[i].database_info
            == s[j].database_info
}

proof fn lemma_consistent_push_client(c: Seq<Client>, s: Seq<SessionEntry>, x: Client)
    requires
        accounts_consistent(c, s),
        !has_session(s, x.client_id),
        !dir_in_use(c, s, x.database_info.directory_base_name@),
    ensures
        accounts_consistent(c.push(x), s),
{
    let t = c.push(x);
    let n = x.database_info.directory_base_name@;
    assert forall|i: int| 0 <= i < c.len() implies #[trigger] c[i].database_info.directory_base_name@ != n by {}
    assert forall|j: int| 0 <= j < s.len() implies #[trigger] s[j].database_info.directory_base_name@ != n by {}
    assert forall|j: int| 0 <= j < s.len() implies #[trigger] s[j].client_id != x.client_id by {}
    assert forall|i: int, j: int| 0 <= i < t.len() && 0 <= j < t.len() && i != j implies #[trigger] t[i].database_info.directory_base_name@
        != #[trigger] t[j].database_info.directory_base_name@ by {
        if i < c.len() {
            assert(t[i] == c[i]);
        }
        if j < c.len() {
            assert(t[j] == c[j]);
        }
    }
    assert forall|i: int, j: int|
        #![trigger t[i], s[j]]
        0 <= i < t.len() && 0 <= j < s.len() && t[i].database_info.directory_base_name@
            == s[j].database_info.directory_base_name@ implies t[i].client_id == s[j].client_id by {
        if i < c.len() {
            assert(t[i] == c[i]);
            assert(c[i] == c[i] && s[j] == s[j]);
        } else {
            assert(s[j].database_info.directory_base_name@ != n);
        }
    }
    assert forall|i: int, j: int|
        #![trigger t[i], s[j]]
        0 <= i < t.len() && 0 <= j < s.len() && t[i].client_id == s[j].client_id implies t[i].database_info
            == s[j].database_info by {
        if i < c.len() {
            assert(t[i] == c[i]);
            assert(c[i] == c[i] && s[j] == s[j]);
        } else {
            assert(s[j].client_id != x.client_id);
        }
    }
}

proof fn lemma_unique_update(s: Seq<Client>, p: int, state: ClientState)
    requires
        unique_clients(s),
        0 <= p < s.len(),
    ensures
        unique_clients(with_state(s, p, state)),
{
    let t = with_state(s, p, state);
    assert forall|i: int, j: int| 0 <= i < t.len() && 0 <= j < t.len() && i != j implies #[trigger] t[i].client_id
        != #[trigger] t[j].client_id by {
        assert(t[i].client_id == s[i].client_id);
        assert(t[j].client_id == s[j].client_id);
    }
}

proof fn lemma_unique_remove(s: Seq<Client>, p: int)
    requires
        unique_clients(s),
        0 <= p < s.len(),
    ensures
        unique_clients(s.remove(p)),
        !has_client(s.remove(p), s[p].client_id),
{
    let t = s.remove(p);
    assert forall|i: int, j: int| 0 <= i < t.len() && 0 <= j < t.len() && i != j implies #[trigger] t[i].client_id
        != #[trigger] t[j].client_id by {
        assert(t[i] == s[if i < p { i } else { i + 1 }]);
        assert(t[j] == s[if j < p { j } else { j + 1 }]);
    }
    if has_client(t, s[p].client_id) {
        let i = choose|i: int| 0 <= i < t.len() && #[trigger] t[i].client_id == s[p].client_id;
        assert(t[i] == s[if i < p { i } else { i + 1 }]);
    }
}

proof fn lemma_unique_sessions_remove(s: Seq<SessionEntry>, p: int)
    requires
        unique_sessions(s),
        0 <= p < s.len(),
    ensures
        unique_sessions(s.remove(p)),
{
    let t = s.remove(p);
    assert forall|i: int, j: int| 0 <= i < t.len() && 0 <= j < t.len() && i != j implies #[trigger] t[i].client_id
        != #[trigger] t[j].client_id by {
        assert(t[i] == s[if i < p { i } else { i + 1 }]);
        assert(t[j] == s[if j < p { j } else { j + 1 }]);
    }
}

proof fn lemma_unique_push(s: Seq<Client>, c: Client)
    requires
        unique_clients(s),
        !has_client(s, c.client_id),
    ensures
        unique_clients(s.push(c)),
        has_client(s.push(c), c.client_id),
{
    let t = s.push(c);
    assert forall|i: int, j: int| 0 <= i < t.len() && 0 <= j < t.len() && i != j implies #[trigger] t[i].client_id
        != #[trigger] t[j].client_id by {
        if i < s.len() && j < s.len() {
            assert(t[i] == s[i] && t[j] == s[j]);
        } else if i < s.len() {
            assert(t[i] == s[i]);
        } else {
            assert(t[j] == s[j]);
        }
    }
    assert(t[s.len() as int].client_id == c.client_id);
}

impl SessionManager {
    /// The manager's invariant: one record per client handle, one session per client, and
    /// directory names that identify accounts.
    pub open spec fn wf(&self) -> bool {
        &&& unique_clients(self.clients@)
        &&& unique_sessions(self.sessions@)
        &&& accounts_consistent(self.clients@, self.sessions@)
    }

    /// An empty manager for a process configured with the given data center environment.
    pub fn new(test_dc: bool) -> (r: SessionManager)
        ensures
            r.wf(),
            r.recently_used_sessions@.len() == 0,
            r.initial_sessions_to_handle == 0,
            r.clients@.len() == 0,
            r.sessions@.len() == 0,
            r.surface == Surface::Login,
            r.visible_session == 0,
            r.test_dc == test_dc,
    {
        SessionManager {
            recently_used_sessions: Vec::new(),
            initial_sessions_to_handle: 0,
            clients: Vec::new(),
            sessions: Vec::new(),
            surface: Surface::Login,
            visible_session: 0,
            test_dc,
        }
    }

    /// The position of the client with the given handle.
    pub fn find_client(&self, client_id: i32) -> (r: Option<usize>)
        requires
            self.wf(),
        ensures
            r is None <==> !has_client(self.clients@, client_id),
            r matches Some(i) ==> i < self.clients@.len() && i == client_index(self.clients@, client_id)
                && self.clients@[i as int].client_id == client_id,
    {
        let mut i: usize = 0;
        while i < self.clients.len()
            invariant
                self.wf(),
                i <= self.clients@.len(),
                forall|j: int| 0 <= j < i ==> self.clients@[j].client_id != client_id,
            decreases self.clients.len() - i,
        {
            if self.clients[i].client_id == client_id {
                proof {
                    lemma_client_index(self.clients@, i as int);
                }
                return Some(i);
            }
            i = i + 1;
        }
        None
    }

    /// The position of the session of the client with the given handle.
    pub fn find_session(&self, client_id: i32) -> (r: Option<usize>)
        requires
            self.wf(),
        ensures
            r is None <==> !has_session(self.sessions@, client_id),
            r matches Some(i) ==> i < self.sessions@.len() && i == session_index(self.sessions@, client_id)
                && self.sessions@[i as int].client_id == client_id,
    {
        let mut i: usize = 0;
        while i < self.sessions.len()
            invariant
                self.wf(),
                i <= self.sessions@.len(),
                forall|j: int| 0 <= j < i ==> self.sessions@[j].client_id != client_id,
            decreases self.sessions.len() - i,
        {
            if self.sessions[i].client_id == client_id {
                proof {
                    lemma_session_index(self.sessions@, i as int);
                }
                return Some(i);
            }
            i = i + 1;
        }
        None
    }

    /// Returns the client with the given handle.
    pub fn client(&self, client_id: i32) -> (r: Option<Client>)
        requires
            self.wf(),
        ensures
            r is None <==> !has_client(self.clients@, client_id),
            r matches Some(c) ==> c == self.clients@[client_index(self.clients@, client_id)],
    {
        match self.find_client(client_id) {
            Some(i) => Some(self.clients[i].duplicate()),
            None => None,
        }
    }

    /// Sets the online status of every logged-in client: online for `active_client_id`,
    /// offline for the others.
    pub fn transfer_online_status(&self, active_client_id: i32) -> (r: Vec<Action>)
        ensures
            r@ == online_actions(self.clients@, active_client_id),
    {
        let mut out: Vec<Action> = Vec::new();
        let mut i: usize = 0;
        while i < self.clients.len()
            invariant
                i <= self.clients@.len(),
                out@ == online_actions(self.clients@.subrange(0, i as int), active_client_id),
            decreases self.clients.len() - i,
        {
            assert(self.clients@.subrange(0, i + 1).drop_last() =~= self.clients@.subrange(0, i as int));
            let c = &self.clients[i];
            if c.state == ClientState::LoggedIn {
                out.push(Action::SetOnline { client_id: c.client_id, value: c.client_id == active_client_id });
            }
            i = i + 1;
        }
        assert(self.clients@.subrange(0, self.clients@.len() as int) =~= self.clients@);
        out
    }

    /// Takes action after the selected session or the visible surface changed.
    pub fn on_active_session_changed(&mut self) -> (r: Vec<Action>)
        ensures
            (final(self).recently_used_sessions@, r@) == active_change(
                old(self).clients@,
                old(self).sessions@,
                old(self).visible_session as int,
                old(self).surface,
                old(self).recently_used_sessions@,
            ),
            final(self).clients == old(self).clients,
            final(self).sessions == old(self).sessions,
            final(self).surface == old(self).surface,
            final(self).visible_session == old(self).visible_session,
            final(self).initial_sessions_to_handle == old(self).initial_sessions_to_handle,
            final(self).test_dc == old(self).test_dc,
    {
        if self.visible_session < self.sessions.len() {
            let client_id = self.sessions[self.visible_session].client_id;
            let mut out = self.transfer_online_status(client_id);
            if self.surface == Surface::Sessions {
                let name = self.sessions[self.visible_session].database_info.directory_base_name.clone();
                promote(&mut self.recently_used_sessions, name);
                out.push(Action::SaveRecentlyUsed);
            }
            out
        } else {
            Vec::new()
        }
    }
}

impl SessionManager {
    /// Registers a session found in the data directory under the newly created client handle.
    /// The client is expected to become ready without user interaction.
    pub fn add_existing_session(&mut self, client_id: i32, database_info: DatabaseInfo) -> (r: Result<
        Vec<Action>,
        ManagerError,
    >)
        requires
            old(self).wf(),
        ensures
            final(self).wf(),
            has_client(old(self).clients@, client_id) || has_session(old(self).sessions@, client_id) ==> r
                == Err::<Vec<Action>, ManagerError>(ManagerError::ClientExists) && *final(self) == *old(self),
            !has_client(old(self).clients@, client_id) && !has_session(old(self).sessions@, client_id)
                && dir_in_use(old(self).clients@, old(self).sessions@, database_info.directory_base_name@)
                ==> r == Err::<Vec<Action>, ManagerError>(ManagerError::DirectoryInUse) && *final(self)
                == *old(self),
            !has_client(old(self).clients@, client_id) && !has_session(old(self).sessions@, client_id)
                && !dir_in_use(old(self).clients@, old(self).sessions@, database_info.directory_base_name@)
                ==> {
                &&& ok_actions(r) == Some(seq![Action::SetLogVerbosity { client_id }])
                &&& final(self).clients@ == old(self).clients@.push(
                    Client { client_id, database_info, state: ClientState::Auth { maybe_authorized: true } },
                )
                &&& same_except_clients(*old(self), *final(self))
            },
    {
        if self.find_client(client_id).is_some() || self.find_session(client_id).is_some() {
            return Err(ManagerError::ClientExists);
        }
        if self.directory_in_use(&database_info.directory_base_name) {
            return Err(ManagerError::DirectoryInUse);
        }
        let client = Client { client_id, database_info, state: ClientState::Auth { maybe_authorized: true } };
        proof {
            lemma_unique_push(self.clients@, client);
            lemma_consistent_push_client(self.clients@, self.sessions@, client);
        }
        self.clients.push(client);
        Ok(vec![Action::SetLogVerbosity { client_id }])
    }

    /// Whether a client or a session uses the directory `name`.
    fn directory_in_use(&self, name: &String) -> (r: bool)
        ensures
            r == dir_in_use(self.clients@, self.sessions@, name@),
    {
        let mut i: usize = 0;
        while i < self.clients.len()
            invariant
                i <= self.clients@.len(),
                forall|k: int| 0 <= k < i ==> #[trigger] self.clients@[k].database_info.directory_base_name@ != name@,
            decreases self.clients.len() - i,
        {
            if self.clients[i].database_info.directory_base_name == *name {
                return true;
            }
            i = i + 1;
        }
        let mut j: usize = 0;
        while j < self.sessions.len()
            invariant
                j <= self.sessions@.len(),
                forall|k: int|
                    0 <= k < self.clients@.len() ==> #[trigger] self.clients@[k].database_info.directory_base_name@
                        != name@,
                forall|k: int| 0 <= k < j ==> #[trigger] self.sessions@[k].database_info.directory_base_name@ != name@,
            decreases self.sessions.len() - j,
        {
            if self.sessions[j].database_info.directory_base_name == *name {
                return true;
            }
            j = j + 1;
        }
        false
    }

    /// The directory names in use: those in the data directory and those of the registered
    /// clients.
    fn taken_dir_names(&self, existing_dirs: &Vec<String>) -> (r: Vec<String>)
        ensures
            names_of(r@) == names_of(existing_dirs@) + client_dir_names(self.clients@) + session_dir_names(
                self.sessions@,
            ),
    {
        let mut out: Vec<String> = Vec::new();
        let n = existing_dirs.len();
        let mut i: usize = 0;
        while i < n
            invariant
                n == existing_dirs@.len(),
                i <= n,
                out@.len() == i,
                forall|k: int| 0 <= k < i ==> #[trigger] out@[k]@ == existing_dirs@[k]@,
            decreases n - i,
        {
            out.push(existing_dirs[i].clone());
            i = i + 1;
        }
        let mut j: usize = 0;
        while j < self.clients.len()
            invariant
                n == existing_dirs@.len(),
                j <= self.clients@.len(),
                out@.len() == n + j,
                forall|k: int| 0 <= k < n ==> #[trigger] out@[k]@ == existing_dirs@[k]@,
                forall|k: int|
                    0 <= k < j ==> #[trigger] out@[n + k]@ == self.clients@[k].database_info.directory_base_name@,
            decreases self.clients.len() - j,
        {
            out.push(self.clients[j].database_info.directory_base_name.clone());
            proof {
                assert forall|k: int| 0 <= k < j + 1 implies #[trigger] out@[n + k]@
                    == self.clients@[k].database_info.directory_base_name@ by {
                    if k == j {
                        assert(out@[n + k] == self.clients@[k].database_info.directory_base_name);
                    }
                }
            }
            j = j + 1;
        }
        let m = out.len();
        let mut q: usize = 0;
        while q < self.sessions.len()
            invariant
                n == existing_dirs@.len(),
                m == n + self.clients@.len(),
                q <= self.sessions@.len(),
                out@.len() == m + q,
                forall|k: int| 0 <= k < n ==> #[trigger] out@[k]@ == existing_dirs@[k]@,
                forall|k: int|
                    0 <= k < self.clients@.len() ==> #[trigger] out@[n + k]@
                        == self.clients@[k].database_info.directory_base_name@,
                forall|k: int|
                    0 <= k < q ==> #[trigger] out@[m + k]@ == self.sessions@[k].database_info.directory_base_name@,
            decreases self.sessions.len() - q,
        {
            out.push(self.sessions[q].database_info.directory_base_name.clone());
            proof {
                assert forall|k: int| 0 <= k < q + 1 implies #[trigger] out@[m + k]@
                    == self.sessions@[k].database_info.directory_base_name@ by {
                    if k == q {
                        assert(out@[m + k] == self.sessions@[k].database_info.directory_base_name);
                    }
                }
            }
            q = q + 1;
        }
        let ghost want = names_of(existing_dirs@) + client_dir_names(self.clients@) + session_dir_names(
            self.sessions@,
        );
        assert forall|k: int| 0 <= k < out@.len() implies #[trigger] names_of(out@)[k] == want[k] by {
            if k >= m {
                assert(out@[m + (k - m)]@ == self.sessions@[k - m].database_info.directory_base_name@);
            } else if k >= n {
                assert(out@[n + (k - n)]@ == self.clients@[k - n].database_info.directory_base_name@);
            }
        }
        assert(names_of(out@) =~= want);
        out
    }

    /// Adds a session for an account that is not known yet under the newly created client
    /// handle: a fresh database directory name is generated from the current time and the
    /// names in use, and the client goes through the interactive login.
    pub fn add_new_session(
        &mut self,
        client_id: i32,
        use_test_dc: bool,
        now_millis: u128,
        existing_dirs: &Vec<String>,
    ) -> (r: Result<Vec<Action>, ManagerError>)
        requires
            old(self).wf(),
        ensures
            final(self).wf(),
            has_client(old(self).clients@, client_id) || has_session(old(self).sessions@, client_id) ==> r
                == Err::<Vec<Action>, ManagerError>(ManagerError::ClientExists) && *final(self) == *old(self),
            !has_client(old(self).clients@, client_id) && !has_session(old(self).sessions@, client_id) ==> {
                let c = final(self).clients@.last();
                &&& final(self).clients@.len() == old(self).clients@.len() + 1
                &&& final(self).clients@.drop_last() == old(self).clients@
                &&& c.client_id == client_id
                &&& c.state == ClientState::Auth { maybe_authorized: false }
                &&& c.database_info.use_test_dc == use_test_dc
                &&& is_generated_name(
                    now_millis as nat,
                    names_of(existing_dirs@) + client_dir_names(old(self).clients@) + session_dir_names(
                        old(self).sessions@,
                    ),
                    c.database_info.directory_base_name@,
                )
                &&& ok_actions(r) == Some(
                    seq![
                        Action::LoginClient { client_id, database_info: c.database_info },
                        Action::SetLogVerbosity { client_id },
                    ],
                )
                &&& final(self).surface == Surface::Login
                &&& final(self).sessions == old(self).sessions
                &&& final(self).recently_used_sessions == old(self).recently_used_sessions
                &&& final(self).visible_session == old(self).visible_session
                &&& final(self).initial_sessions_to_handle == old(self).initial_sessions_to_handle
                &&& final(self).test_dc == old(self).test_dc
            },
    {
        if self.find_client(client_id).is_some() || self.find_session(client_id).is_some() {
            return Err(ManagerError::ClientExists);
        }
        let taken = self.taken_dir_names(existing_dirs);
        let name = generate_database_dir_base_name(now_millis, &taken);
        proof {
            let t = names_of(taken@);
            let a = names_of(existing_dirs@);
            let b = client_dir_names(self.clients@);
            let c = session_dir_names(self.sessions@);
            assert(t == a + b + c);
            assert(!t.contains(name@)) by {
                let k = choose|k: nat|
                    #![trigger candidate_name(now_millis as nat, k)]
                    k >= 1 && name@ == candidate_name(now_millis as nat, k) && !t.contains(name@)
                        && forall|j: nat|
                        1 <= j < k ==> #[trigger] t.contains(candidate_name(now_millis as nat, j));
            }
            assert forall|i: int| 0 <= i < self.clients@.len() implies #[trigger] self.clients@[i].database_info.directory_base_name@
                != name@ by {
                assert(t[a.len() + i] == b[i]);
            }
            assert forall|j: int| 0 <= j < self.sessions@.len() implies #[trigger] self.sessions@[j].database_info.directory_base_name@
                != name@ by {
                assert(t[a.len() + b.len() + j] == c[j]);
            }
        }
        let database_info = DatabaseInfo { directory_base_name: name, use_test_dc };
        let mut out = self.init_new_session(client_id, database_info);
        out.push(Action::SetLogVerbosity { client_id });
        proof {
            assert(final(self).clients@.drop_last() =~= old(self).clients@);
        }
        Ok(out)
    }

    /// Registers a client that goes through the interactive login and shows the login flow.
    fn init_new_session(&mut self, client_id: i32, database_info: DatabaseInfo) -> (r: Vec<Action>)
        requires
            old(self).wf(),
            !has_client(old(self).clients@, client_id),
            !has_session(old(self).sessions@, client_id),
            !dir_in_use(old(self).clients@, old(self).sessions@, database_info.directory_base_name@),
        ensures
            final(self).wf(),
            final(self).clients@ == old(self).clients@.push(
                Client { client_id, database_info, state: ClientState::Auth { maybe_authorized: false } },
            ),
            r@ == seq![Action::LoginClient { client_id, database_info }],
            final(self).surface == Surface::Login,
            final(self).sessions == old(self).sessions,
            final(self).recently_used_sessions == old(self).recently_used_sessions,
            final(self).visible_session == old(self).visible_session,
            final(self).initial_sessions_to_handle == old(self).initial_sessions_to_handle,
            final(self).test_dc == old(self).test_dc,
    {
        let login_info = database_info.duplicate();
        let client = Client { client_id, database_info, state: ClientState::Auth { maybe_authorized: false } };
        proof {
            lemma_unique_push(self.clients@, client);
            lemma_consistent_push_client(self.clients@, self.sessions@, client);
        }
        self.clients.push(client);
        self.surface = Surface::Login;
        vec![Action::LoginClient { client_id, database_info: login_info }]
    }

    /// Takes over the result of the data directory analysis: with no session, a new session
    /// is started in the configured environment; otherwise the recently used order is taken
    /// over and each session found is to be registered.
    pub fn load_sessions(&mut self, state: DatadirState) -> (r: Vec<Action>)
        requires
            old(self).wf(),
        ensures
            final(self).wf(),
            match state {
                DatadirState::Empty => {
                    &&& r@ == seq![Action::StartNewSession { use_test_dc: old(self).test_dc }]
                    &&& *final(self) == *old(self)
                },
                DatadirState::HasSessions { database_infos, recently_used_sessions } => {
                    &&& r@ == database_infos@.map_values(
                        |d: DatabaseInfo| Action::AddExistingSession { database_info: d },
                    )
                    &&& final(self).recently_used_sessions == recently_used_sessions
                    &&& final(self).initial_sessions_to_handle == database_infos@.len()
                    &&& final(self).clients == old(self).clients
                    &&& final(self).sessions == old(self).sessions
                    &&& final(self).surface == old(self).surface
                    &&& final(self).visible_session == old(self).visible_session
                    &&& final(self).test_dc == old(self).test_dc
                },
            },
    {
        match state {
            DatadirState::Empty => vec![Action::StartNewSession { use_test_dc: self.test_dc }],
            DatadirState::HasSessions { database_infos, recently_used_sessions } => {
                self.recently_used_sessions = recently_used_sessions;
                self.initial_sessions_to_handle = database_infos.len();
                let mut out: Vec<Action> = Vec::new();
                let mut i: usize = 0;
                while i < database_infos.len()
                    invariant
                        i <= database_infos@.len(),
                        out@ =~= database_infos@.subrange(0, i as int).map_values(
                            |d: DatabaseInfo| Action::AddExistingSession { database_info: d },
                        ),
                    decreases database_infos.len() - i,
                {
                    out.push(Action::AddExistingSession { database_info: database_infos[i].duplicate() });
                    i = i + 1;
                }
                assert(database_infos@.subrange(0, i as int) =~= database_infos@);
                out
            },
        }
    }
}

impl SessionManager {
    /// The position of the session to select after a logout: the first session whose
    /// directory is the most recently used one, or the first session.
    fn fallback_session_index(&self) -> (r: usize)
        ensures
            fallback_index(self.sessions@, self.recently_used_sessions@, r as int),
    {
        let n = self.recently_used_sessions.len();
        if n == 0 {
            return 0;
        }
        let last = &self.recently_used_sessions[n - 1];
        let mut i: usize = 0;
        while i < self.sessions.len()
            invariant
                n == self.recently_used_sessions@.len(),
                n > 0,
                *last == self.recently_used_sessions@.last(),
                i <= self.sessions@.len(),
                forall|j: int|
                    0 <= j < i ==> #[trigger] self.sessions@[j].database_info.directory_base_name@ != last@,
            decreases self.sessions.len() - i,
        {
            if self.sessions[i].database_info.directory_base_name == *last {
                return i;
            }
            i = i + 1;
        }
        0
    }

    /// The client at position `pos` starts logging out.
    fn set_session_logging_out(&mut self, pos: usize) -> (r: Vec<Action>)
        requires
            old(self).wf(),
            pos < old(self).clients@.len(),
        ensures
            final(self).wf(),
            logging_out_step(*old(self), *final(self), pos as int, r@),
    {
        let client = self.clients[pos].duplicate();
        let marked = Client {
            client_id: client.client_id,
            database_info: client.database_info.duplicate(),
            state: ClientState::LoggingOut,
        };
        proof {
            lemma_unique_update(self.clients@, pos as int, ClientState::LoggingOut);
        }
        self.clients.set(pos, marked);
        if client.state != ClientState::LoggedIn {
            return Vec::new();
        }
        match self.find_session(client.client_id) {
            Some(q) => {
                proof {
                    lemma_unique_sessions_remove(self.sessions@, q as int);
                }
                self.sessions.remove(q);
            },
            None => {},
        }
        remove_from_vec(&mut self.recently_used_sessions, &client.database_info.directory_base_name);
        if self.sessions.len() > 0 {
            self.visible_session = self.fallback_session_index();
            let mut out = self.on_active_session_changed();
            out.push(Action::SaveRecentlyUsed);
            out
        } else {
            self.visible_session = 0;
            vec![Action::StartNewSession { use_test_dc: self.test_dc }, Action::SaveRecentlyUsed]
        }
    }

    /// Drives the client's authorization. A client in the interactive login has every state
    /// forwarded to the login flow. A client resumed from the data directory gets its stored
    /// parameters and the empty encryption key and becomes a logged-in session when ready; if
    /// it unexpectedly needs user input, it is handed to the login flow when it is the only
    /// session resumed at startup and uses the configured environment, and logged out
    /// otherwise. `LoggingOut` and `Closed` end the client's lifecycle.
    pub fn handle_authorization_state(&mut self, state: AuthorizationState, client_id: i32) -> (r: Result<
        Vec<Action>,
        ManagerError,
    >)
        requires
            old(self).wf(),
        ensures
            final(self).wf(),
            authorization_step(*old(self), *final(self), state, client_id, r),
    {
        let pos = match self.find_client(client_id) {
            Some(p) => p,
            None => {
                return Err(ManagerError::UnknownClient);
            },
        };
        if state == AuthorizationState::Closed {
            proof {
                lemma_unique_remove(self.clients@, pos as int);
            }
            let client = self.clients.remove(pos);
            if client.state == ClientState::LoggingOut {
                let ghost c = client;
                let out = vec![Action::RemoveDirectory { directory_base_name: client.database_info.directory_base_name }];
                assert(c == old(self).clients@[client_index(old(self).clients@, client_id)]);
                assert(out@ == seq![Action::RemoveDirectory { directory_base_name: c.database_info.directory_base_name }]);
                return Ok(out);
            }
            return Ok(Vec::new());
        }
        if state == AuthorizationState::LoggingOut {
            let out = self.set_session_logging_out(pos);
            return Ok(out);
        }
        let client = self.clients[pos].duplicate();
        assert(client == old(self).clients@[client_index(old(self).clients@, client_id)]);
        assert(*self == *old(self));
        assert(state != AuthorizationState::Closed && state != AuthorizationState::LoggingOut);
        match client.state {
            ClientState::Auth { maybe_authorized } => {
                if !maybe_authorized {
                    let r = Ok(vec![Action::SetAuthorizationState { client_id }]);
                    assert(ok_actions(r)->0 == seq![Action::SetAuthorizationState { client_id }]);
                    r
                } else if state == AuthorizationState::WaitTdlibParameters {
                    let ghost info = client.database_info;
                    let r = Ok(vec![Action::SendTdlibParameters { client_id, database_info: client.database_info }]);
                    assert(ok_actions(r)->0 == seq![Action::SendTdlibParameters { client_id, database_info: info }]);
                    r
                } else if state == AuthorizationState::WaitEncryptionKey {
                    let r = Ok(vec![Action::CheckEncryptionKey { client_id }]);
                    assert(ok_actions(r)->0 == seq![Action::CheckEncryptionKey { client_id }]);
                    r
                } else if state == AuthorizationState::Ready {
                    let n = self.recently_used_sessions.len();
                    let last_used = n > 0 && self.recently_used_sessions[n - 1]
                        == client.database_info.directory_base_name;
                    assert(last_used == (self.recently_used_sessions@.len() > 0
                        && self.recently_used_sessions@.last()@ == client.database_info.directory_base_name@));
                    let r = Ok(vec![Action::FetchMe { client_id, visible: last_used }]);
                    assert(ok_actions(r)->0 == seq![Action::FetchMe { client_id, visible: last_used }]);
                    r
                } else if self.test_dc == client.database_info.use_test_dc
                    && self.initial_sessions_to_handle == 1 {
                    let login_info = client.database_info.duplicate();
                    let interactive = Client {
                        client_id,
                        database_info: client.database_info,
                        state: ClientState::Auth { maybe_authorized: false },
                    };
                    proof {
                        lemma_unique_update(self.clients@, pos as int, ClientState::Auth { maybe_authorized: false });
                    }
                    self.clients.set(pos, interactive);
                    assert(self.clients@ =~= with_state(
                        old(self).clients@,
                        pos as int,
                        ClientState::Auth { maybe_authorized: false },
                    ));
                    Ok(
                        vec![
                            Action::LoginClient { client_id, database_info: login_info },
                            Action::SetAuthorizationState { client_id },
                        ],
                    )
                } else {
                    let r = Ok(vec![Action::LogOut { client_id }]);
                    assert(ok_actions(r)->0 == seq![Action::LogOut { client_id }]);
                    r
                }
            },
            _ => Ok(Vec::new()),
        }
    }

    /// The single entry point for protocol updates. Authorization updates drive the client's
    /// authorization; an authorization update for an unknown handle is reported as
    /// `UnknownClient`. Every other update goes to the client's session: it implies that the
    /// client was registered, so one for an unknown handle is a fatal error of the caller and
    /// is excluded here.
    pub fn handle_update(&mut self, update: Update, client_id: i32) -> (r: Result<Vec<Action>, ManagerError>)
        requires
            old(self).wf(),
            update is Other ==> has_client(old(self).clients@, client_id),
        ensures
            final(self).wf(),
            match update {
                Update::AuthorizationState(state) => authorization_step(
                    *old(self),
                    *final(self),
                    state,
                    client_id,
                    r,
                ),
                Update::Other => {
                    &&& *final(self) == *old(self)
                    &&& ok_actions(r) == Some(seq![Action::ForwardUpdate { client_id }])
                },
            },
    {
        match update {
            Update::AuthorizationState(state) => self.handle_authorization_state(state, client_id),
            Update::Other => Ok(vec![Action::ForwardUpdate { client_id }]),
        }
    }
}

impl SessionManager {
    fn has_authorizing_client(&self) -> (r: bool)
        ensures
            r == any_authorizing(self.clients@),
    {
        let mut i: usize = 0;
        while i < self.clients.len()
            invariant
                i <= self.clients@.len(),
                forall|j: int| 0 <= j < i ==> !(#[trigger] self.clients@[j].state is Auth),
            decreases self.clients.len() - i,
        {
            if let ClientState::Auth { .. } = self.clients[i].state {
                return true;
            }
            i = i + 1;
        }
        false
    }

    /// Adds the logged-in session of the client once its own profile `me` is known.
    pub fn add_logged_in_session(&mut self, client_id: i32, me: User, visible: bool) -> (r: Result<
        Vec<Action>,
        ManagerError,
    >)
        requires
            old(self).wf(),
        ensures
            final(self).wf(),
            logged_in_step(*old(self), *final(self), client_id, me, visible, r),
    {
        let pos = match self.find_client(client_id) {
            Some(p) => p,
            None => {
                return Err(ManagerError::UnknownClient);
            },
        };
        let client = self.clients[pos].duplicate();
        assert(client == old(self).clients@[client_index(old(self).clients@, client_id)]);
        let has_entry = self.find_session(client_id).is_some();
        let entry = SessionEntry { client_id, database_info: client.database_info.duplicate(), me };
        let logged_in = Client { client_id, database_info: client.database_info, state: ClientState::LoggedIn };
        proof {
            lemma_unique_update(self.clients@, pos as int, ClientState::LoggedIn);
        }
        self.clients.set(pos, logged_in);
        assert(self.clients@ =~= with_state(old(self).clients@, pos as int, ClientState::LoggedIn));
        if has_entry {
            let r = Ok(vec![Action::FetchChats { client_id }, Action::EnableNotifications { client_id }]);
            assert(ok_actions(r)->0 == seq![
                Action::FetchChats { client_id },
                Action::EnableNotifications { client_id },
            ]);
            return r;
        }
        proof {
            let t = self.sessions@.push(entry);
            assert forall|i: int, j: int| 0 <= i < t.len() && 0 <= j < t.len() && i != j implies #[trigger] t[i].client_id
                != #[trigger] t[j].client_id by {
                if i < self.sessions@.len() && j < self.sessions@.len() {
                    assert(t[i] == self.sessions@[i] && t[j] == self.sessions@[j]);
                } else if i < self.sessions@.len() {
                    assert(t[i] == self.sessions@[i]);
                    assert(self.sessions@[i].client_id != client_id);
                } else {
                    assert(t[j] == self.sessions@[j]);
                    assert(self.sessions@[j].client_id != client_id);
                }
            }
        }
        let was_empty = self.sessions.len() == 0;
        let new_index = self.sessions.len();
        self.sessions.push(entry);
        let auth_present = self.has_authorizing_client();
        assert(self.sessions@ == old(self).sessions@.push(
            SessionEntry { client_id, database_info: old(self).clients@[pos as int].database_info, me },
        ));
        assert(was_empty <==> self.sessions@.len() == 1);
        let mut changed = if !auth_present && (visible || was_empty || self.surface != Surface::Sessions) {
            self.visible_session = new_index;
            self.surface = Surface::Sessions;
            self.on_active_session_changed()
        } else if was_empty {
            self.visible_session = 0;
            self.on_active_session_changed()
        } else {
            Vec::new()
        };
        let ghost changed_actions = changed@;
        let mut out = vec![Action::FetchChats { client_id }];
        out.append(&mut changed);
        out.push(Action::EnableNotifications { client_id });
        assert(out@ =~= seq![Action::FetchChats { client_id }] + changed_actions.push(
            Action::EnableNotifications { client_id },
        ));
        assert(changed_actions.len() == 0 ==> out@ =~= seq![
            Action::FetchChats { client_id },
            Action::EnableNotifications { client_id },
        ]);
        let r = Ok(out);
        assert(ok_actions(r)->0 == out@);
        r
    }

    /// Shows the logged-in sessions, selecting the session at `pos` if it is given and exists.
    pub fn switch_to_sessions(&mut self, pos: Option<usize>) -> (r: Vec<Action>)
        requires
            old(self).wf(),
        ensures
            final(self).wf(),
            final(self).surface == Surface::Sessions,
            final(self).visible_session == match pos {
                Some(p) => if p < old(self).sessions@.len() {
                    p
                } else {
                    old(self).visible_session
                },
                None => old(self).visible_session,
            },
            (final(self).recently_used_sessions@, r@) == active_change(
                old(self).clients@,
                old(self).sessions@,
                final(self).visible_session as int,
                Surface::Sessions,
                old(self).recently_used_sessions@,
            ),
            final(self).clients == old(self).clients,
            final(self).sessions == old(self).sessions,
            final(self).initial_sessions_to_handle == old(self).initial_sessions_to_handle,
            final(self).test_dc == old(self).test_dc,
    {
        self.surface = Surface::Sessions;
        if let Some(p) = pos {
            if p < self.sessions.len() {
                self.visible_session = p;
            }
        }
        self.on_active_session_changed()
    }

    /// The position of the logged-in session of the account with the given environment and
    /// phone number digits, used to avoid two sessions of one account.
    pub fn session_index_for(&self, on_test_dc: bool, phone_number_digits: &String) -> (r: Option<usize>)
        ensures
            r is None <==> forall|i: int|
                0 <= i < self.sessions@.len() ==> !session_matches(
                    #[trigger] self.sessions@[i],
                    on_test_dc,
                    phone_number_digits@,
                ),
            r matches Some(i) ==> {
                &&& i < self.sessions@.len()
                &&& session_matches(self.sessions@[i as int], on_test_dc, phone_number_digits@)
                &&& forall|j: int|
                    0 <= j < i ==> !session_matches(
                        #[trigger] self.sessions@[j],
                        on_test_dc,
                        phone_number_digits@,
                    )
            },
    {
        let mut i: usize = 0;
        while i < self.sessions.len()
            invariant
                i <= self.sessions@.len(),
                forall|j: int|
                    0 <= j < i ==> !session_matches(
                        #[trigger] self.sessions@[j],
                        on_test_dc,
                        phone_number_digits@,
                    ),
            decreases self.sessions.len() - i,
        {
            let session = &self.sessions[i];
            if session.database_info.use_test_dc == on_test_dc && phone_digits(&session.me.phone_number)
                == *phone_number_digits {
                return Some(i);
            }
            i = i + 1;
        }
        None
    }

    /// The logged-in sessions.
    pub fn sessions(&self) -> (r: &Vec<SessionEntry>)
        ensures
            r == &self.sessions,
    {
        &self.sessions
    }

    /// The own profiles of the logged-in sessions, in their order.
    pub fn logged_in_users(&self) -> (r: Vec<User>)
        ensures
            r@ == self.sessions@.map_values(|s: SessionEntry| s.me),
    {
        let mut out: Vec<User> = Vec::new();
        let mut i: usize = 0;
        while i < self.sessions.len()
            invariant
                i <= self.sessions@.len(),
                out@ =~= self.sessions@.subrange(0, i as int).map_values(|s: SessionEntry| s.me),
            decreases self.sessions.len() - i,
        {
            out.push(self.sessions[i].me.duplicate());
            i = i + 1;
        }
        assert(self.sessions@.subrange(0, i as int) =~= self.sessions@);
        out
    }

    /// The client of the shown session, if the sessions are shown.
    pub fn active_logged_in_client_id(&self) -> (r: Option<i32>)
        ensures
            r == active_client(*self),
    {
        if self.surface == Surface::Sessions && self.visible_session < self.sessions.len() {
            Some(self.sessions[self.visible_session].client_id)
        } else {
            None
        }
    }

    /// Sets the online status of the active logged-in client, if there is one.
    pub fn set_active_client_online(&self, value: bool) -> (r: Vec<Action>)
        ensures
            r@ == match active_client(*self) {
                Some(id) => seq![Action::SetOnline { client_id: id, value }],
                None => Seq::<Action>::empty(),
            },
    {
        match self.active_logged_in_client_id() {
            Some(client_id) => vec![Action::SetOnline { client_id, value }],
            None => Vec::new(),
        }
    }

    /// The client to start a chat search in: the active client, if it is logged in.
    pub fn begin_chats_search(&self) -> (r: Option<i32>)
        requires
            self.wf(),
        ensures
            r == match active_client(*self) {
                Some(id) => if has_client(self.clients@, id) && self.clients@[client_index(
                    self.clients@,
                    id,
                )].state == ClientState::LoggedIn {
                    Some(id)
                } else {
                    None
                },
                None => None::<i32>,
            },
    {
        match self.active_logged_in_client_id() {
            Some(client_id) => match self.find_client(client_id) {
                Some(i) => if self.clients[i].state == ClientState::LoggedIn {
                    Some(client_id)
                } else {
                    None
                },
                None => None,
            },
            None => None,
        }
    }

    /// The clients to set offline and close at shutdown: those authorizing or logged in, in
    /// registry order.
    pub fn close_clients(&self) -> (r: Vec<i32>)
        ensures
            r@ == closing_ids(self.clients@),
    {
        let mut out: Vec<i32> = Vec::new();
        let mut i: usize = 0;
        while i < self.clients.len()
            invariant
                i <= self.clients@.len(),
                out@ == closing_ids(self.clients@.subrange(0, i as int)),
            decreases self.clients.len() - i,
        {
            assert(self.clients@.subrange(0, i + 1).drop_last() =~= self.clients@.subrange(0, i as int));
            if self.clients[i].state != ClientState::LoggingOut {
                out.push(self.clients[i].client_id);
            }
            i = i + 1;
        }
        assert(self.clients@.subrange(0, i as int) =~= self.clients@);
        out
    }
}

/// After `Closed` for a registered client, its handle is gone from the registry, every other
/// handle keeps its record, and each handle still has exactly one record.
pub proof fn lemma_closed_removes_handle(
    pre: SessionManager,
    post: SessionManager,
    id: i32,
    r: Result<Vec<Action>, ManagerError>,
)
    requires
        pre.wf(),
        has_client(pre.clients@, id),
        authorization_step(pre, post, AuthorizationState::Closed, id, r),
    ensures
        !has_client(post.clients@, id),
        unique_clients(post.clients@),
        forall|other: i32| other != id ==> (has_client(post.clients@, other) <==> has_client(pre.clients@, other)),
{
    let p = client_index(pre.clients@, id);
    lemma_unique_remove(pre.clients@, p);
    assert forall|other: i32| other != id implies (has_client(post.clients@, other) <==> has_client(
        pre.clients@,
        other,
    )) by {
        let t = pre.clients@.remove(p);
        if has_client(t, other) {
            let i = choose|i: int| 0 <= i < t.len() && #[trigger] t[i].client_id == other;
            assert(pre.clients@[if i < p { i } else { i + 1 }].client_id == other);
        }
        if has_client(pre.clients@, other) {
            let i = choose|i: int| 0 <= i < pre.clients@.len() && #[trigger] pre.clients@[i].client_id == other;
            assert(i != p);
            assert(t[if i < p { i } else { i - 1 }].client_id == other);
        }
    }
}

/// When a logged-in client starts logging out, its session leaves the visible set and the
/// other sessions stay in their order; its directory leaves the recently used order, every
/// other name stays, and the order is persisted last. When it had the only session, a new
/// session is started in the configured environment.
pub proof fn lemma_logout_of_logged_in(
    pre: SessionManager,
    post: SessionManager,
    id: i32,
    r: Result<Vec<Action>, ManagerError>,
)
    requires
        pre.wf(),
        has_client(pre.clients@, id),
        pre.clients@[client_index(pre.clients@, id)].state == ClientState::LoggedIn,
        has_session(pre.sessions@, id),
        distinct_names(pre.recently_used_sessions@),
        authorization_step(pre, post, AuthorizationState::LoggingOut, id, r),
    ensures
        ({
            let n = pre.clients@[client_index(pre.clients@, id)].database_info.directory_base_name@;
            &&& post.sessions@ == pre.sessions@.remove(session_index(pre.sessions@, id))
            &&& !has_session(post.sessions@, id)
            &&& post.clients@[client_index(pre.clients@, id)].state == ClientState::LoggingOut
            &&& !has_name(post.recently_used_sessions@, n)
            &&& forall|k: int|
                0 <= k < pre.recently_used_sessions@.len() && #[trigger] pre.recently_used_sessions@[k]@ != n
                    ==> has_name(post.recently_used_sessions@, pre.recently_used_sessions@[k]@)
            &&& ok_actions(r) is Some
            &&& ok_actions(r)->0.len() > 0
            &&& ok_actions(r)->0.last() == Action::SaveRecentlyUsed
            &&& pre.sessions@.len() == 1 ==> post.sessions@.len() == 0 && ok_actions(r)->0 == seq![
                Action::StartNewSession { use_test_dc: pre.test_dc },
                Action::SaveRecentlyUsed,
            ]
        }),
{
    let p = client_index(pre.clients@, id);
    let c = pre.clients@[p];
    let n = c.database_info.directory_base_name@;
    let q = session_index(pre.sessions@, id);
    let s = pre.sessions@;
    let s1 = s.remove(q);
    let recent = pre.recently_used_sessions@;
    let recent1 = without_first(recent, n);
    assert(s[q] == s[q] && c == pre.clients@[p]);
    assert(s[q].database_info == c.database_info);
    assert forall|j: int| 0 <= j < s1.len() implies #[trigger] s1[j].database_info.directory_base_name@ != n
        && s1[j].client_id != id by {
        let k = if j < q { j } else { j + 1 };
        assert(s1[j] == s[k]);
    }
    lemma_without_first_distinct(recent, n);
    assert forall|k: int| 0 <= k < recent.len() && #[trigger] recent[k]@ != n implies has_name(
        recent1,
        recent[k]@,
    ) by {
        lemma_without_first_keeps(recent, n, recent[k]@);
    }
    if s1.len() > 0 {
        let v = post.visible_session as int;
        if 0 <= v < s1.len() && pre.surface == Surface::Sessions {
            let m = s1[v].database_info.directory_base_name;
            lemma_without_first_distinct(recent1, m@);
            let w = without_first(recent1, m@);
            let r2 = promoted(recent1, m);
            assert(r2 == w.push(m));
            assert(!has_name(r2, n)) by {
                if has_name(r2, n) {
                    let k = choose|k: int| 0 <= k < r2.len() && #[trigger] r2[k]@ == n;
                    if k < w.len() {
                        assert(r2[k] == w[k]);
                        assert(has_name(recent1, w[k]@));
                    }
                }
            }
            assert forall|k: int| 0 <= k < recent.len() && #[trigger] recent[k]@ != n implies has_name(
                r2,
                recent[k]@,
            ) by {
                if recent[k]@ == m@ {
                    assert(r2[r2.len() - 1] == m);
                } else {
                    lemma_without_first_keeps(recent1, m@, recent[k]@);
                    let i = choose|i: int| 0 <= i < w.len() && #[trigger] w[i]@ == recent[k]@;
                    assert(r2[i] == w[i]);
                }
            }
        }
    }
}

/// Whether the state is one that a resumed client is not expected to reach.
pub open spec fn unexpected_for_resume(state: AuthorizationState) -> bool {
    state != AuthorizationState::WaitTdlibParameters && state != AuthorizationState::WaitEncryptionKey
        && state != AuthorizationState::Ready && state != AuthorizationState::LoggingOut && state
        != AuthorizationState::Closed
}

/// A resumed client that unexpectedly needs user input is handed to the login flow, with
/// its flag cleared and the state forwarded, when it is the only session resumed at startup
/// and uses the configured environment; when several sessions were resumed it is logged out
/// and the registry is left as it was.
pub proof fn lemma_resume_fallback(
    pre: SessionManager,
    post: SessionManager,
    state: AuthorizationState,
    id: i32,
    r: Result<Vec<Action>, ManagerError>,
)
    requires
        pre.wf(),
        has_client(pre.clients@, id),
        pre.clients@[client_index(pre.clients@, id)].state == (ClientState::Auth { maybe_authorized: true }),
        unexpected_for_resume(state),
        authorization_step(pre, post, state, id, r),
    ensures
        ({
            let c = pre.clients@[client_index(pre.clients@, id)];
            pre.initial_sessions_to_handle == 1 && pre.test_dc == c.database_info.use_test_dc ==> {
                &&& post.clients@[client_index(pre.clients@, id)].state == (ClientState::Auth {
                    maybe_authorized: false,
                })
                &&& post.clients@.len() == pre.clients@.len()
                &&& ok_actions(r) == Some(
                    seq![
                        Action::LoginClient { client_id: id, database_info: c.database_info },
                        Action::SetAuthorizationState { client_id: id },
                    ],
                )
            }
        }),
        pre.initial_sessions_to_handle >= 2 ==> post == pre && ok_actions(r) == Some(
            seq![Action::LogOut { client_id: id }],
        ),
{
}

/// A client registered by `add_existing_session` or `add_new_session` has exactly one record.
pub proof fn lemma_added_handle_unique(clients: Seq<Client>, c: Client)
    requires
        unique_clients(clients),
        !has_client(clients, c.client_id),
    ensures
        unique_clients(clients.push(c)),
        has_client(clients.push(c), c.client_id),
        client_index(clients.push(c), c.client_id) == clients.len(),
{
    lemma_unique_push(clients, c);
    lemma_client_index(clients.push(c), clients.len() as int);
}

/// The most verbose level that the process logs.
#[derive(Clone, Copy, Debug, PartialEq, Eq, Structural)]
pub enum LogLevel {
    Off,
    Error,
    Warn,
    Info,
    Debug,
    Trace,
}

/// The protocol's log verbosity for the process's log level.
pub fn log_verbosity_level(level: LogLevel) -> (r: i32)
    ensures
        r == match level {
            LogLevel::Trace => 5i32,
            LogLevel::Debug => 4,
            LogLevel::Info => 3,
            LogLevel::Warn => 2,
            _ => 0,
        },
{
    match level {
        LogLevel::Trace => 5,
        LogLevel::Debug => 4,
        LogLevel::Info => 3,
        LogLevel::Warn => 2,
        _ => 0,
    }
}

} // verus!
