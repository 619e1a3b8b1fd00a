use ingress_engine::acceptor::{
    accept_action, is_emfile, AcceptAction, AcceptEvent, ACCEPT_ERROR_BACKOFF_MS,
    EMFILE_BACKOFF_MS,
};
use ingress_engine::config::{Config, ConfigStore};

#[test]
fn emfile_codes_are_recognized() {
    assert!(is_emfile(Some(24)));
    assert!(is_emfile(Some(23)));
    assert!(!is_emfile(Some(11)));
    assert!(!is_emfile(Some(0)));
    assert!(!is_emfile(None));
}

#[test]
fn successful_accept_spawns_a_connection() {
    assert_eq!(accept_action(&AcceptEvent::Accepted), AcceptAction::SpawnConnection);
}

#[test]
fn exhaustion_backs_off_ten_millis_and_other_errors_five() {
    assert_eq!(
        accept_action(&AcceptEvent::Failed(Some(24))),
        AcceptAction::RetryAfterMillis(EMFILE_BACKOFF_MS)
    );
    assert_eq!(
        accept_action(&AcceptEvent::Failed(Some(23))),
        AcceptAction::RetryAfterMillis(EMFILE_BACKOFF_MS)
    );
    assert_eq!(
        accept_action(&AcceptEvent::Failed(Some(13))),
        AcceptAction::RetryAfterMillis(ACCEPT_ERROR_BACKOFF_MS)
    );
    assert_eq!(
        accept_action(&AcceptEvent::Failed(None)),
        AcceptAction::RetryAfterMillis(ACCEPT_ERROR_BACKOFF_MS)
    );
    assert_eq!(EMFILE_BACKOFF_MS, 10);
    assert_eq!(ACCEPT_ERROR_BACKOFF_MS, 5);
}

#[test]
fn fifty_exhaustion_errors_in_a_row_all_retry() {
    let mut retries = 0;
    for _ in 0..50 {
        match accept_action(&AcceptEvent::Failed(Some(24))) {
            AcceptAction::RetryAfterMillis(ms) => {
                assert_eq!(ms, 10);
                retries += 1;
            },
            AcceptAction::SpawnConnection => panic!("exhaustion must not spawn"),
        }
    }
    assert_eq!(retries, 50);
}

#[test]
fn config_defaults_match_the_settings_record() {
    let c = Config::default();
    assert_eq!(c.max_connections, 1000);
    assert_eq!(c.tcp_recv_buf_size, 4096);
    assert_eq!(c.tcp_nodelay, true);
}

#[test]
fn config_store_keeps_the_first_value() {
    let mut store = ConfigStore::new();
    assert!(!store.is_set());

    let first = Config { max_connections: 7, tcp_recv_buf_size: 512, tcp_nodelay: false };
    assert!(store.set(first));
    assert!(store.is_set());

    let second = Config::default();
    assert!(!store.set(second));

    let seen = Config::global(&store);
    assert_eq!(seen.max_connections, 7);
    assert_eq!(seen.tcp_recv_buf_size, 512);
    assert_eq!(seen.tcp_nodelay, false);
}
