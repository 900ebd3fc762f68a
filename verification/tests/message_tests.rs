use unix_socket_based_client_server::message::CommandStatus;
use unix_socket_based_client_server::message::Request;
use unix_socket_based_client_server::message::Response;
use unix_socket_based_client_server::message::decode_request;
use unix_socket_based_client_server::message::decode_response;

#[test]
fn serde_to_and_from_string_works() {
    let request = Request::new("some-request-id", "some content message");
    let stringified_request = request.to_serialized_string();

    assert_eq!(decode_request(&stringified_request).unwrap(), request);
}

#[test]
fn serde_from_bytes_works() {
    let request = Request::new("some-request-id", "some content message");
    let stringified_request = request.to_serialized_string();
    let request_as_bytes = stringified_request.as_bytes();
    assert_eq!(
        decode_request(std::str::from_utf8(request_as_bytes).unwrap()).unwrap(),
        request
    );
}

#[test]
fn serde_to_bytes_works() {
    let request = Request::new("some-request-id", "some content message");
    let stringified_request = request.to_serialized_string();
    let request_as_bytes = stringified_request.as_bytes();
    assert_eq!(request.serialize_to_bytes(), request_as_bytes);

    // the same value serialized by serde_json gives the same bytes
    let mut object = serde_json::Map::new();
    object.insert(
        "id".to_string(),
        serde_json::Value::String("some-request-id".to_string()),
    );
    object.insert(
        "message".to_string(),
        serde_json::Value::String("some content message".to_string()),
    );
    let expected = serde_json::to_vec(&serde_json::Value::Object(object)).unwrap();
    assert_eq!(request.serialize_to_bytes(), expected);
}

#[test]
fn deserialize_error_works() {
    let bad_request = "{\"id\":345,\"message\":\"HeyPatric\"}";
    assert!(decode_request(&bad_request).is_err())
}

#[test]
fn request_encodes_to_exact_json() {
    let request = Request::new("request", "This is a request, please respond");
    assert_eq!(
        request.to_serialized_string(),
        "{\"id\":\"request\",\"message\":\"This is a request, please respond\"}"
    );
}

#[test]
fn response_encodes_to_exact_json() {
    let response = Response::new("response", CommandStatus::Okay, "Roger that");
    assert_eq!(
        response.to_serialized_string(),
        "{\"id\":\"response\",\"status\":\"OK\",\"message\":\"Roger that\"}"
    );
}

#[test]
fn response_round_trips_for_every_status() {
    for status in [
        CommandStatus::Okay,
        CommandStatus::Processing,
        CommandStatus::Error,
    ] {
        let response = Response::new("tag", status, "text");
        let encoded = response.to_serialized_string();
        assert_eq!(decode_response(&encoded).unwrap(), response);
    }
}

#[test]
fn special_characters_round_trip() {
    let request = Request::new(
        "quote \" backslash \\ slash /",
        "newline \n tab \t carriage \r bell \u{7} unicode \u{e9}\u{1F600}",
    );
    let encoded = request.to_serialized_string();
    assert_eq!(decode_request(&encoded).unwrap(), request);
}

#[test]
fn control_characters_are_escaped_in_hex() {
    let request = Request::new("a", "\u{1}\u{1f}");
    assert_eq!(
        request.to_serialized_string(),
        "{\"id\":\"a\",\"message\":\"\\u0001\\u001f\"}"
    );
}

#[test]
fn decode_tolerates_whitespace_and_field_order() {
    let decoded =
        decode_request(" {\n\t\"message\" : \"b\" ,\r \"id\" : \"a\" } \n").unwrap();
    assert_eq!(decoded, Request::new("a", "b"));

    let decoded = decode_response(
        "{ \"status\" : \"ERROR\", \"message\": \"m\", \"id\": \"i\" }",
    )
    .unwrap();
    assert_eq!(decoded, Response::new("i", CommandStatus::Error, "m"));
}

#[test]
fn decode_accepts_named_and_unicode_escapes() {
    let decoded = decode_request("{\"id\":\"\\u0041\\n\\t\\/\\\"\",\"message\":\"\\u00e9\"}")
        .unwrap();
    assert_eq!(decoded.id, "A\n\t/\"");
    assert_eq!(decoded.message, "\u{e9}");
}

#[test]
fn decode_rejects_malformed_payloads() {
    // not an object at all
    assert!(decode_request("").is_err());
    assert!(decode_request("null").is_err());
    assert!(decode_request("\"just a string\"").is_err());
    // missing, duplicate and unknown fields
    assert!(decode_request("{}").is_err());
    assert!(decode_request("{\"id\":\"a\"}").is_err());
    assert!(decode_request("{\"id\":\"a\",\"id\":\"b\"}").is_err());
    assert!(decode_request("{\"id\":\"a\",\"other\":\"b\"}").is_err());
    // non-string field values
    assert!(decode_request("{\"id\":\"a\",\"message\":17}").is_err());
    assert!(decode_request("{\"id\":null,\"message\":\"b\"}").is_err());
    // structural damage
    assert!(decode_request("{\"id\":\"a\",\"message\":\"b\"").is_err());
    assert!(decode_request("{\"id\":\"a\",\"message\":\"b\"} trailing").is_err());
    assert!(decode_request("{\"id\":\"a\" \"message\":\"b\"}").is_err());
    // raw control character and bad escapes inside a string
    assert!(decode_request("{\"id\":\"a\u{1}\",\"message\":\"b\"}").is_err());
    assert!(decode_request("{\"id\":\"a\\q\",\"message\":\"b\"}").is_err());
    assert!(decode_request("{\"id\":\"a\\uD800\",\"message\":\"b\"}").is_err());
    assert!(decode_request("{\"id\":\"a\\u00\",\"message\":\"b\"}").is_err());
}

#[test]
fn decode_rejects_bad_status() {
    assert!(decode_response("{\"id\":\"a\",\"status\":\"DONE\",\"message\":\"b\"}").is_err());
    assert!(decode_response("{\"id\":\"a\",\"status\":7,\"message\":\"b\"}").is_err());
    assert!(decode_response("{\"id\":\"a\",\"status\":\"ok\",\"message\":\"b\"}").is_err());
    // a response needs all three fields
    assert!(decode_response("{\"id\":\"a\",\"message\":\"b\"}").is_err());
}
