use sm_executor::gateway::{
    create_password_hash, password_hash_cost, payment_summary_window, GatewayRequest,
    GeneralCommands, PasswordHashError, DAY_MILLIS,
};

const NOW: u64 = 1_700_000_000_000;

#[test]
fn summary_covers_the_last_day_by_default() {
    assert_eq!(DAY_MILLIS, 24 * 60 * 60 * 1000);
    assert_eq!(payment_summary_window(NOW, None, None), (NOW - 86_400_000, NOW));
    assert_eq!(payment_summary_window(NOW, Some(5), None), (5, NOW));
    assert_eq!(payment_summary_window(NOW, None, Some(9)), (NOW - 86_400_000, 9));
    assert_eq!(payment_summary_window(NOW, Some(5), Some(9)), (5, 9));
    assert_eq!(payment_summary_window(DAY_MILLIS, None, None), (0, DAY_MILLIS));
}

#[test]
fn default_cost_is_twelve() {
    assert_eq!(password_hash_cost(None), 12);
    assert_eq!(password_hash_cost(Some(4)), 4);
    assert_eq!(password_hash_cost(Some(0)), 0);
}

#[test]
fn password_hash_has_the_shape_of_its_cost() {
    let hash = create_password_hash("correct horse", 4).unwrap();
    assert_eq!(hash.len(), 60);
    assert!(hash.starts_with("$2b$04$"));
    assert_ne!(hash, "correct horse");
    assert_eq!(bcrypt::verify("correct horse", &hash).ok(), Some(true));
    assert_eq!(bcrypt::verify("battery staple", &hash).ok(), Some(false));
    let again = create_password_hash("correct horse", 4).unwrap();
    assert_eq!(bcrypt::verify("correct horse", &again).ok(), Some(true));
    let five = create_password_hash("correct horse", 5).unwrap();
    assert!(five.starts_with("$2b$05$"));
}

#[test]
fn password_hash_rejects_a_cost_out_of_range() {
    assert_eq!(create_password_hash("secret", 3), Err(PasswordHashError::CostNotAllowed(3)));
    assert_eq!(create_password_hash("secret", 32), Err(PasswordHashError::CostNotAllowed(32)));
    assert_eq!(create_password_hash("secret", 0), Err(PasswordHashError::CostNotAllowed(0)));
}

#[test]
fn commands_without_arguments() {
    assert!(matches!(GeneralCommands::VersionHash.handle(0), GatewayRequest::VersionHash));
    assert!(matches!(GeneralCommands::Info.handle(0), GatewayRequest::GetInfo));
    assert!(matches!(GeneralCommands::GetBalances.handle(0), GatewayRequest::GetBalances));
    assert!(matches!(GeneralCommands::Seed.handle(0), GatewayRequest::GetMnemonic));
    assert!(matches!(GeneralCommands::Stop.handle(0), GatewayRequest::Stop));
}

#[test]
fn connect_and_leave_carry_their_arguments() {
    let connect = GeneralCommands::ConnectFed {
        invite_code: "fed11abc".to_string(),
        use_tor: None,
        recover: Some(true),
    };
    match connect.handle(NOW) {
        GatewayRequest::ConnectFederation { invite_code, use_tor, recover } => {
            assert_eq!(invite_code, "fed11abc");
            assert_eq!(use_tor, None);
            assert_eq!(recover, Some(true));
        }
        other => panic!("unexpected request {other:?}"),
    }
    match (GeneralCommands::LeaveFed { federation_id: "15db8cb4".to_string() }).handle(NOW) {
        GatewayRequest::LeaveFederation { federation_id } => assert_eq!(federation_id, "15db8cb4"),
        other => panic!("unexpected request {other:?}"),
    }
}

#[test]
fn payment_log_carries_its_arguments() {
    let command = GeneralCommands::PaymentLog {
        end_position: Some(40),
        pagination_size: 25,
        federation_id: "15db8cb4".to_string(),
        event_kinds: vec!["outgoing-payment-started".to_string(), "incoming".to_string()],
    };
    match command.handle(NOW) {
        GatewayRequest::PaymentLog { end_position, pagination_size, federation_id, event_kinds } => {
            assert_eq!(end_position, Some(40));
            assert_eq!(pagination_size, 25);
            assert_eq!(federation_id, "15db8cb4");
            assert_eq!(event_kinds, vec!["outgoing-payment-started", "incoming"]);
        }
        other => panic!("unexpected request {other:?}"),
    }
}

#[test]
fn password_command_picks_the_cost() {
    let command = GeneralCommands::CreatePasswordHash { password: "pw".to_string(), cost: None };
    match command.handle(NOW) {
        GatewayRequest::HashPassword { password, cost } => {
            assert_eq!(password, "pw");
            assert_eq!(cost, 12);
        }
        other => panic!("unexpected request {other:?}"),
    }
    let command = GeneralCommands::CreatePasswordHash { password: "pw".to_string(), cost: Some(6) };
    assert!(matches!(command.handle(NOW), GatewayRequest::HashPassword { cost: 6, .. }));
}

#[test]
fn summary_command_computes_the_window() {
    let command = GeneralCommands::PaymentSummary { start: None, end: None };
    match command.handle(NOW) {
        GatewayRequest::PaymentSummary { start_millis, end_millis } => {
            assert_eq!(start_millis, NOW - 86_400_000);
            assert_eq!(end_millis, NOW);
        }
        other => panic!("unexpected request {other:?}"),
    }
    let command = GeneralCommands::PaymentSummary { start: Some(1), end: Some(2) };
    assert!(matches!(
        command.handle(NOW),
        GatewayRequest::PaymentSummary { start_millis: 1, end_millis: 2 }
    ));
}
