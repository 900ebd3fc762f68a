use unix_socket_based_client_server::message::CommandStatus;
use unix_socket_based_client_server::message::Request;
use unix_socket_based_client_server::message::Response;
use unix_socket_based_client_server::session::ClientStep;
use unix_socket_based_client_server::session::PROCESSING_FRAME_COUNT;
use unix_socket_based_client_server::session::client_step;
use unix_socket_based_client_server::session::frame_response;
use unix_socket_based_client_server::session::is_terminal_status;
use unix_socket_based_client_server::session::processing_response;
use unix_socket_based_client_server::session::serve_sessions;
use unix_socket_based_client_server::session::session_reply_frames;
use unix_socket_based_client_server::session::terminal_response;

#[test]
fn every_frame_ends_in_exactly_one_newline() {
    for response in [
        processing_response(),
        Response::new("response", CommandStatus::Okay, "Roger that"),
        Response::new("what", CommandStatus::Error, "text with \n inside"),
    ] {
        let frame = frame_response(&response);
        assert!(frame.ends_with('\n'));
        let body = &frame[..frame.len() - 1];
        assert!(!body.contains('\n'));
    }
}

#[test]
fn terminal_selection_matches_the_request_tag() {
    let known = terminal_response(&Request::new("request", "anything"));
    assert_eq!(
        known,
        Response::new("response", CommandStatus::Okay, "Roger that")
    );

    let unknown = terminal_response(&Request::new("something-else", "anything"));
    assert_eq!(
        unknown,
        Response::new("what", CommandStatus::Error, "Sorry what?")
    );
}

#[test]
fn successful_exchange_streams_nine_processing_frames_then_one_terminal() {
    let raw = Request::new("request", "This is a request, please respond").to_serialized_string();
    let frames = session_reply_frames(&raw).unwrap();
    assert_eq!(frames.len(), PROCESSING_FRAME_COUNT + 1);
    assert_eq!(PROCESSING_FRAME_COUNT, 9);
    let processing_frame = frame_response(&processing_response());
    for frame in &frames[..PROCESSING_FRAME_COUNT] {
        assert_eq!(frame, &processing_frame);
    }
    assert_eq!(
        frames[PROCESSING_FRAME_COUNT],
        frame_response(&Response::new("response", CommandStatus::Okay, "Roger that"))
    );
}

#[test]
fn unknown_tag_gets_an_error_terminal_frame() {
    let raw = Request::new("nonsense", "hello").to_serialized_string();
    let frames = session_reply_frames(&raw).unwrap();
    assert_eq!(
        frames[frames.len() - 1],
        frame_response(&Response::new("what", CommandStatus::Error, "Sorry what?"))
    );
}

#[test]
fn undecodable_request_produces_no_frames() {
    assert!(session_reply_frames("not json at all").is_err());
}

#[test]
fn client_stops_on_terminal_statuses_and_continues_on_processing() {
    let ok_frame = Response::new("response", CommandStatus::Okay, "Roger that")
        .to_serialized_string();
    assert!(matches!(client_step(&ok_frame), Ok(ClientStep::Finished(_))));

    let error_frame =
        Response::new("what", CommandStatus::Error, "Sorry what?").to_serialized_string();
    assert!(matches!(client_step(&error_frame), Ok(ClientStep::Finished(_))));

    let processing_frame = processing_response().to_serialized_string();
    assert!(matches!(
        client_step(&processing_frame),
        Ok(ClientStep::Continue(_))
    ));

    assert!(client_step("garbage").is_err());

    assert!(is_terminal_status(&CommandStatus::Okay));
    assert!(is_terminal_status(&CommandStatus::Error));
    assert!(!is_terminal_status(&CommandStatus::Processing));
}

#[test]
fn sequential_sessions_stay_isolated() {
    let first = Request::new("request", "first").to_serialized_string();
    let second = Request::new("other", "second").to_serialized_string();
    let outs = serve_sessions(&vec![first.clone(), second.clone()]);
    assert_eq!(outs.len(), 2);

    // each session's frames are exactly those of its own request, alone
    assert_eq!(outs[0].as_ref().unwrap(), &session_reply_frames(&first).unwrap());
    assert_eq!(outs[1].as_ref().unwrap(), &session_reply_frames(&second).unwrap());
    assert_ne!(
        outs[0].as_ref().unwrap()[9],
        outs[1].as_ref().unwrap()[9]
    );
}
