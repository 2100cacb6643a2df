use eww::daemon_response::{create_pair, response_for_errors, response_for_result, DaemonResponse, DaemonResponseError};

#[test]
fn responses_for_errors() {
    assert_eq!(response_for_errors(&vec![]), DaemonResponse::Success(String::new()));
    assert_eq!(response_for_errors(&vec![String::new()]), DaemonResponse::Failure(String::new()));
    assert_eq!(
        response_for_errors(&vec!["a".to_string(), "b".to_string()]),
        DaemonResponse::Failure("a\nb".to_string())
    );
    assert_eq!(response_for_result::<()>(Ok(())), DaemonResponse::Success(String::new()));
    assert_eq!(response_for_result::<()>(Err("bad".to_string())), DaemonResponse::Failure("bad".to_string()));
    assert_eq!(DaemonResponse::Failure("x".to_string()).to_display_string(), "x");
}

#[test]
fn responses_are_sent() {
    let (sender, mut recv) = create_pair();
    sender.send_success("ok".to_string()).unwrap();
    sender.respond_with_error_list(&vec!["e".to_string()]).unwrap();
    assert_eq!(recv.try_recv().unwrap(), DaemonResponse::Success("ok".to_string()));
    assert_eq!(recv.try_recv().unwrap(), DaemonResponse::Failure("e".to_string()));
    drop(recv);
    assert_eq!(sender.send_failure("late".to_string()), Err(DaemonResponseError::ReceiverClosed));
}
