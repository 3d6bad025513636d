use telegrand::database::{DatabaseInfo, DatadirState};
use telegrand::session_manager::{
    log_verbosity_level, phone_digits, Action, AuthorizationState, ClientState, LogLevel,
    ManagerError, SessionManager, Surface, Update, User,
};

fn info(name: &str, test_dc: bool) -> DatabaseInfo {
    DatabaseInfo { directory_base_name: name.to_string(), use_test_dc: test_dc }
}

fn user(id: i64, phone: &str) -> User {
    User { id, phone_number: phone.to_string() }
}

fn auth(state: AuthorizationState) -> Update {
    Update::AuthorizationState(state)
}

/// A manager with resumed sessions that all became logged in.
fn logged_in_manager(names: &[&str]) -> SessionManager {
    let mut m = SessionManager::new(false);
    let infos: Vec<DatabaseInfo> = names.iter().map(|n| info(n, false)).collect();
    m.load_sessions(DatadirState::HasSessions {
        database_infos: infos.clone(),
        recently_used_sessions: names.iter().map(|n| n.to_string()).collect(),
    });
    for (i, d) in infos.into_iter().enumerate() {
        m.add_existing_session(i as i32 + 1, d).unwrap();
    }
    for i in 0..names.len() {
        let id = i as i32 + 1;
        m.add_logged_in_session(id, user(100 + id as i64, "+1 555 000"), false).unwrap();
    }
    m
}

#[test]
fn empty_data_directory_starts_new_session() {
    let mut m = SessionManager::new(true);
    let actions = m.load_sessions(DatadirState::Empty);
    assert_eq!(actions, vec![Action::StartNewSession { use_test_dc: true }]);
    assert!(m.clients.is_empty());
}

#[test]
fn found_session_is_resumed() {
    let mut m = SessionManager::new(false);
    let actions = m.load_sessions(DatadirState::HasSessions {
        database_infos: vec![info("db1700000000000", false)],
        recently_used_sessions: vec!["db1700000000000".to_string()],
    });
    assert_eq!(actions, vec![Action::AddExistingSession { database_info: info("db1700000000000", false) }]);
    assert_eq!(m.recently_used_sessions, vec!["db1700000000000".to_string()]);
    assert_eq!(m.initial_sessions_to_handle, 1);
    let actions = m.add_existing_session(1, info("db1700000000000", false)).unwrap();
    assert_eq!(actions, vec![Action::SetLogVerbosity { client_id: 1 }]);
    let c = m.client(1).unwrap();
    assert_eq!(c.state, ClientState::Auth { maybe_authorized: true });
    assert_eq!(c.database_info, info("db1700000000000", false));
}

#[test]
fn handles_are_unique_until_closed() {
    let mut m = SessionManager::new(false);
    m.add_existing_session(1, info("a", false)).unwrap();
    m.add_new_session(2, false, 1700000000000, &Vec::new()).unwrap();
    assert_eq!(m.add_existing_session(1, info("b", false)), Err(ManagerError::ClientExists));
    assert_eq!(m.add_existing_session(3, info("a", true)), Err(ManagerError::DirectoryInUse));
    assert_eq!(m.add_new_session(2, false, 1, &Vec::new()), Err(ManagerError::ClientExists));
    assert_eq!(m.clients.len(), 2);
    m.handle_update(auth(AuthorizationState::Closed), 1).unwrap();
    assert!(m.client(1).is_none());
    assert!(m.client(2).is_some());
    assert_eq!(m.handle_update(auth(AuthorizationState::Closed), 1), Err(ManagerError::UnknownClient));
    m.add_existing_session(1, info("a", false)).unwrap();
    assert_eq!(m.clients.len(), 2);
}

#[test]
fn new_session_goes_to_login() {
    let mut m = SessionManager::new(false);
    let existing = vec!["db1700000000000".to_string()];
    let actions = m.add_new_session(4, true, 1700000000000, &existing).unwrap();
    let expected = info("db1700000000000_2", true);
    assert_eq!(
        actions,
        vec![
            Action::LoginClient { client_id: 4, database_info: expected.clone() },
            Action::SetLogVerbosity { client_id: 4 },
        ]
    );
    assert_eq!(m.surface, Surface::Login);
    assert_eq!(m.client(4).unwrap().state, ClientState::Auth { maybe_authorized: false });
}

#[test]
fn new_sessions_in_one_millisecond_get_distinct_directories() {
    let mut m = SessionManager::new(false);
    m.add_new_session(1, false, 1700000000000, &Vec::new()).unwrap();
    m.add_new_session(2, false, 1700000000000, &Vec::new()).unwrap();
    assert_eq!(m.client(1).unwrap().database_info.directory_base_name, "db1700000000000");
    assert_eq!(m.client(2).unwrap().database_info.directory_base_name, "db1700000000000_2");
}

#[test]
fn resumed_client_is_driven_without_login() {
    let mut m = SessionManager::new(false);
    m.add_existing_session(1, info("db1", false)).unwrap();
    assert_eq!(
        m.handle_update(auth(AuthorizationState::WaitTdlibParameters), 1).unwrap(),
        vec![Action::SendTdlibParameters { client_id: 1, database_info: info("db1", false) }]
    );
    assert_eq!(
        m.handle_update(auth(AuthorizationState::WaitEncryptionKey), 1).unwrap(),
        vec![Action::CheckEncryptionKey { client_id: 1 }]
    );
    assert_eq!(
        m.handle_update(auth(AuthorizationState::Ready), 1).unwrap(),
        vec![Action::FetchMe { client_id: 1, visible: false }]
    );
}

#[test]
fn ready_for_last_used_session_makes_it_visible() {
    let mut m = SessionManager::new(false);
    m.load_sessions(DatadirState::HasSessions {
        database_infos: vec![info("db1", false), info("db2", false)],
        recently_used_sessions: vec!["db2".to_string(), "db1".to_string()],
    });
    m.add_existing_session(1, info("db1", false)).unwrap();
    m.add_existing_session(2, info("db2", false)).unwrap();
    assert_eq!(
        m.handle_update(auth(AuthorizationState::Ready), 1).unwrap(),
        vec![Action::FetchMe { client_id: 1, visible: true }]
    );
    assert_eq!(
        m.handle_update(auth(AuthorizationState::Ready), 2).unwrap(),
        vec![Action::FetchMe { client_id: 2, visible: false }]
    );
}

#[test]
fn interactive_client_forwards_to_login() {
    let mut m = SessionManager::new(false);
    m.add_new_session(3, false, 10, &Vec::new()).unwrap();
    for state in [AuthorizationState::WaitPhoneNumber, AuthorizationState::WaitCode, AuthorizationState::Ready] {
        assert_eq!(m.handle_update(auth(state), 3).unwrap(), vec![Action::SetAuthorizationState { client_id: 3 }]);
    }
}

#[test]
fn sole_resumed_session_falls_back_to_login() {
    let mut m = SessionManager::new(false);
    m.load_sessions(DatadirState::HasSessions {
        database_infos: vec![info("db1", false)],
        recently_used_sessions: Vec::new(),
    });
    m.add_existing_session(1, info("db1", false)).unwrap();
    let actions = m.handle_update(auth(AuthorizationState::WaitPhoneNumber), 1).unwrap();
    assert_eq!(
        actions,
        vec![
            Action::LoginClient { client_id: 1, database_info: info("db1", false) },
            Action::SetAuthorizationState { client_id: 1 },
        ]
    );
    assert_eq!(m.client(1).unwrap().state, ClientState::Auth { maybe_authorized: false });
}

#[test]
fn resumed_session_in_other_environment_is_logged_out() {
    let mut m = SessionManager::new(false);
    m.load_sessions(DatadirState::HasSessions {
        database_infos: vec![info("db1", true)],
        recently_used_sessions: Vec::new(),
    });
    m.add_existing_session(1, info("db1", true)).unwrap();
    assert_eq!(
        m.handle_update(auth(AuthorizationState::WaitPhoneNumber), 1).unwrap(),
        vec![Action::LogOut { client_id: 1 }]
    );
}

#[test]
fn one_of_several_resumed_sessions_is_logged_out() {
    let mut m = SessionManager::new(false);
    m.load_sessions(DatadirState::HasSessions {
        database_infos: vec![info("db1", false), info("db2", false)],
        recently_used_sessions: Vec::new(),
    });
    m.add_existing_session(1, info("db1", false)).unwrap();
    m.add_existing_session(2, info("db2", false)).unwrap();
    assert_eq!(
        m.handle_update(auth(AuthorizationState::WaitCode), 2).unwrap(),
        vec![Action::LogOut { client_id: 2 }]
    );
    assert_eq!(m.client(2).unwrap().state, ClientState::Auth { maybe_authorized: true });
    m.handle_update(auth(AuthorizationState::LoggingOut), 2).unwrap();
    assert_eq!(
        m.handle_update(auth(AuthorizationState::Closed), 2).unwrap(),
        vec![Action::RemoveDirectory { directory_base_name: "db2".to_string() }]
    );
    assert!(m.client(2).is_none());
}

#[test]
fn logged_in_session_becomes_visible() {
    let mut m = SessionManager::new(false);
    m.add_existing_session(1, info("db1", false)).unwrap();
    let actions = m.add_logged_in_session(1, user(11, "+1 555 123"), false).unwrap();
    assert_eq!(
        actions,
        vec![
            Action::FetchChats { client_id: 1 },
            Action::SetOnline { client_id: 1, value: true },
            Action::SaveRecentlyUsed,
            Action::EnableNotifications { client_id: 1 },
        ]
    );
    assert_eq!(m.surface, Surface::Sessions);
    assert_eq!(m.recently_used_sessions, vec!["db1".to_string()]);
    assert_eq!(m.client(1).unwrap().state, ClientState::LoggedIn);
    assert_eq!(m.logged_in_users(), vec![user(11, "+1 555 123")]);
    assert_eq!(
        m.add_logged_in_session(1, user(11, "+1 555 123"), false),
        Ok(vec![Action::FetchChats { client_id: 1 }, Action::EnableNotifications { client_id: 1 }])
    );
    assert_eq!(m.sessions().len(), 1);
    assert_eq!(m.client(1).unwrap().state, ClientState::LoggedIn);
    assert_eq!(m.add_logged_in_session(9, user(1, "1"), false), Err(ManagerError::UnknownClient));
}

#[test]
fn logged_in_session_waits_for_authorizing_clients() {
    let mut m = SessionManager::new(false);
    m.add_existing_session(1, info("db1", false)).unwrap();
    m.add_existing_session(2, info("db2", false)).unwrap();
    m.add_logged_in_session(1, user(11, "1"), false).unwrap();
    assert_eq!(m.surface, Surface::Login);
    assert_eq!(m.visible_session, 0);
    assert_eq!(m.active_logged_in_client_id(), None);
    let actions = m.add_logged_in_session(2, user(12, "2"), true).unwrap();
    assert_eq!(m.surface, Surface::Sessions);
    assert_eq!(m.visible_session, 1);
    assert_eq!(m.active_logged_in_client_id(), Some(2));
    assert_eq!(
        actions,
        vec![
            Action::FetchChats { client_id: 2 },
            Action::SetOnline { client_id: 1, value: false },
            Action::SetOnline { client_id: 2, value: true },
            Action::SaveRecentlyUsed,
            Action::EnableNotifications { client_id: 2 },
        ]
    );
}

#[test]
fn requested_session_is_not_shown_while_another_authorizes() {
    let mut m = SessionManager::new(false);
    m.add_existing_session(1, info("db1", false)).unwrap();
    m.add_existing_session(2, info("db2", false)).unwrap();
    m.add_existing_session(3, info("db3", false)).unwrap();
    m.add_logged_in_session(1, user(11, "1"), false).unwrap();
    let actions = m.add_logged_in_session(2, user(12, "2"), true).unwrap();
    assert_eq!(
        actions,
        vec![Action::FetchChats { client_id: 2 }, Action::EnableNotifications { client_id: 2 }]
    );
    assert_eq!(m.surface, Surface::Login);
    assert_eq!(m.visible_session, 0);
}

#[test]
fn promoting_two_sessions_orders_recently_used() {
    let mut m = logged_in_manager(&["db1", "db2", "db3"]);
    m.switch_to_sessions(Some(0));
    m.switch_to_sessions(Some(2));
    let n = m.recently_used_sessions.len();
    assert_eq!(&m.recently_used_sessions[n - 2..], &["db1".to_string(), "db3".to_string()]);
    assert_eq!(m.recently_used_sessions.iter().filter(|s| *s == "db1").count(), 1);
    assert_eq!(m.recently_used_sessions.iter().filter(|s| *s == "db3").count(), 1);
}

#[test]
fn switch_to_sessions_ignores_missing_position() {
    let mut m = logged_in_manager(&["db1", "db2"]);
    m.switch_to_sessions(Some(0));
    m.switch_to_sessions(Some(7));
    assert_eq!(m.visible_session, 0);
    assert_eq!(m.surface, Surface::Sessions);
}

#[test]
fn session_index_for_finds_logged_in_account() {
    let mut m = SessionManager::new(false);
    m.add_existing_session(1, info("db1", false)).unwrap();
    m.add_existing_session(2, info("db2", true)).unwrap();
    m.add_logged_in_session(1, user(11, "+49 151 000"), false).unwrap();
    m.add_logged_in_session(2, user(12, "+49 151 000"), false).unwrap();
    assert_eq!(m.session_index_for(false, &"49151000".to_string()), Some(0));
    assert_eq!(m.session_index_for(true, &"49151000".to_string()), Some(1));
    assert_eq!(m.session_index_for(false, &"49151001".to_string()), None);
    assert_eq!(m.session_index_for(false, &"+49151000".to_string()), None);
}

#[test]
fn phone_digits_keeps_only_digits() {
    assert_eq!(phone_digits(&"+1 (555) 12-3".to_string()), "1555123");
    assert_eq!(phone_digits(&"".to_string()), "");
    assert_eq!(phone_digits(&"+ -".to_string()), "");
}

#[test]
fn logout_of_only_session_starts_new_session() {
    let mut m = logged_in_manager(&["db1"]);
    let actions = m.handle_update(auth(AuthorizationState::LoggingOut), 1).unwrap();
    assert_eq!(
        actions,
        vec![Action::StartNewSession { use_test_dc: false }, Action::SaveRecentlyUsed]
    );
    assert!(m.recently_used_sessions.is_empty());
    assert!(m.sessions().is_empty());
    assert_eq!(m.client(1).unwrap().state, ClientState::LoggingOut);
}

#[test]
fn logout_selects_most_recently_used_session() {
    let mut m = logged_in_manager(&["db1", "db2", "db3"]);
    m.switch_to_sessions(Some(1));
    m.switch_to_sessions(Some(2));
    // Order is now db1, db2, db3; db3 logs out and db2 becomes the selected one.
    let actions = m.handle_update(auth(AuthorizationState::LoggingOut), 3).unwrap();
    assert_eq!(m.sessions().len(), 2);
    assert_eq!(m.visible_session, 1);
    assert_eq!(m.active_logged_in_client_id(), Some(2));
    assert_eq!(m.recently_used_sessions, vec!["db1".to_string(), "db2".to_string()]);
    assert_eq!(
        actions,
        vec![
            Action::SetOnline { client_id: 1, value: false },
            Action::SetOnline { client_id: 2, value: true },
            Action::SaveRecentlyUsed,
            Action::SaveRecentlyUsed,
        ]
    );
}

#[test]
fn closed_after_logout_removes_directory() {
    let mut m = logged_in_manager(&["db1", "db2"]);
    m.handle_update(auth(AuthorizationState::LoggingOut), 1).unwrap();
    let actions = m.handle_update(auth(AuthorizationState::Closed), 1).unwrap();
    assert_eq!(actions, vec![Action::RemoveDirectory { directory_base_name: "db1".to_string() }]);
    assert!(m.client(1).is_none());
}

#[test]
fn closed_without_logout_keeps_directory() {
    let mut m = logged_in_manager(&["db1"]);
    m.add_existing_session(5, info("db5", false)).unwrap();
    assert_eq!(m.handle_update(auth(AuthorizationState::Closed), 1).unwrap(), Vec::new());
    assert_eq!(m.handle_update(auth(AuthorizationState::Closed), 5).unwrap(), Vec::new());
    assert!(m.clients.is_empty());
}

#[test]
fn other_updates_go_to_the_session() {
    let mut m = SessionManager::new(false);
    m.add_existing_session(1, info("db1", false)).unwrap();
    assert_eq!(m.handle_update(Update::Other, 1).unwrap(), vec![Action::ForwardUpdate { client_id: 1 }]);
    assert_eq!(m.handle_update(auth(AuthorizationState::Ready), 2), Err(ManagerError::UnknownClient));
}

#[test]
fn close_clients_skips_logging_out() {
    let mut m = logged_in_manager(&["db1", "db2"]);
    m.add_existing_session(3, info("db3", false)).unwrap();
    m.handle_update(auth(AuthorizationState::LoggingOut), 2).unwrap();
    assert_eq!(m.close_clients(), vec![1, 3]);
}

#[test]
fn online_status_of_active_client() {
    let mut m = SessionManager::new(false);
    assert_eq!(m.set_active_client_online(true), Vec::new());
    m.add_existing_session(1, info("db1", false)).unwrap();
    m.add_logged_in_session(1, user(11, "1"), false).unwrap();
    assert_eq!(m.set_active_client_online(false), vec![Action::SetOnline { client_id: 1, value: false }]);
    assert_eq!(m.begin_chats_search(), Some(1));
}

#[test]
fn transfer_online_status_to_one_client() {
    let m = logged_in_manager(&["db1", "db2"]);
    assert_eq!(
        m.transfer_online_status(2),
        vec![
            Action::SetOnline { client_id: 1, value: false },
            Action::SetOnline { client_id: 2, value: true },
        ]
    );
}

#[test]
fn log_levels_map_to_verbosity() {
    assert_eq!(log_verbosity_level(LogLevel::Trace), 5);
    assert_eq!(log_verbosity_level(LogLevel::Debug), 4);
    assert_eq!(log_verbosity_level(LogLevel::Info), 3);
    assert_eq!(log_verbosity_level(LogLevel::Warn), 2);
    assert_eq!(log_verbosity_level(LogLevel::Error), 0);
    assert_eq!(log_verbosity_level(LogLevel::Off), 0);
}

#[test]
fn handle_of_a_closed_logged_in_session_stays_known() {
    let mut m = logged_in_manager(&["db1"]);
    m.handle_update(auth(AuthorizationState::Closed), 1).unwrap();
    assert_eq!(m.add_existing_session(1, info("db9", false)), Err(ManagerError::ClientExists));
    assert_eq!(m.add_existing_session(2, info("db1", false)), Err(ManagerError::DirectoryInUse));
}

#[test]
fn new_session_avoids_directories_of_sessions() {
    let mut m = logged_in_manager(&["db1700000000000"]);
    m.handle_update(auth(AuthorizationState::Closed), 1).unwrap();
    m.add_new_session(2, false, 1700000000000, &Vec::new()).unwrap();
    assert_eq!(m.client(2).unwrap().database_info.directory_base_name, "db1700000000000_2");
}
