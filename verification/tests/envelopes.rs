use tic_tac_toe_server::response::{
    join_response, leave_response, rejection_response, PlayerMark, ResponseType,
    RoomResponse, RoomStateResponse,
};

#[test]
fn mark_to_string_renders_x_and_o() {
    assert_eq!(PlayerMark::X.to_string(), "x");
    assert_eq!(PlayerMark::O.to_string(), "o");
}

#[test]
fn join_envelope_exact_json() {
    let envelope = join_response("r1", 2, PlayerMark::O);
    assert_eq!(
        envelope.to_json(),
        "{\"response_type\":\"room_state\",\"response\":{\"room_id\":\"r1\",\
         \"num_connections\":2,\"message\":\"Someone joined the room\",\
         \"success\":true,\"my_mark\":\"o\"}}"
    );
}

#[test]
fn rejection_envelope_exact_json() {
    let envelope = rejection_response("r1", 2);
    assert_eq!(
        envelope.to_json(),
        "{\"response_type\":\"room_state\",\"response\":{\"room_id\":\"r1\",\
         \"num_connections\":2,\"message\":\"Room is full\",\
         \"success\":false,\"my_mark\":\"x\"}}"
    );
}

#[test]
fn leave_envelope_exact_json() {
    let envelope = leave_response("quiet room", 1, PlayerMark::O, PlayerMark::X);
    assert_eq!(
        envelope.to_json(),
        "{\"response_type\":\"room_state\",\"response\":{\"room_id\":\"quiet room\",\
         \"num_connections\":1,\"message\":\"Player o left the room\",\
         \"success\":true,\"my_mark\":\"x\"}}"
    );
}

#[test]
fn string_fields_are_escaped() {
    let response = RoomStateResponse {
        room_id: "a\"b\\c\nd\te\r\u{8}\u{c}\u{1f}\u{0}".to_string(),
        num_connections: 0,
        message: "plain".to_string(),
        success: true,
        my_mark: "x".to_string(),
    };
    assert_eq!(
        response.to_json_value(),
        "{\"room_id\":\"a\\\"b\\\\c\\nd\\te\\r\\b\\f\\u001f\\u0000\",\
         \"num_connections\":0,\"message\":\"plain\",\"success\":true,\"my_mark\":\"x\"}"
    );
}

#[test]
fn multibyte_characters_pass_through_unescaped() {
    let response = RoomStateResponse {
        room_id: "sch\u{f6}n \u{2603}".to_string(),
        num_connections: 1,
        message: "ok".to_string(),
        success: true,
        my_mark: "o".to_string(),
    };
    let json = response.to_json_value();
    assert!(json.contains("\"room_id\":\"sch\u{f6}n \u{2603}\""));
}

#[test]
fn decimal_rendering_of_counts() {
    let small = RoomStateResponse {
        room_id: "r".to_string(),
        num_connections: 0,
        message: String::new(),
        success: false,
        my_mark: "x".to_string(),
    };
    assert!(small.to_json_value().contains("\"num_connections\":0,"));
    let large = RoomStateResponse {
        room_id: "r".to_string(),
        num_connections: 1203045,
        message: String::new(),
        success: false,
        my_mark: "x".to_string(),
    };
    assert!(large.to_json_value().contains("\"num_connections\":1203045,"));
}

#[test]
fn envelope_json_round_trips_through_a_json_parser() {
    let envelope = RoomResponse {
        response_type: ResponseType::RoomState,
        response: RoomStateResponse {
            room_id: "tricky \"room\"\n".to_string(),
            num_connections: 2,
            message: "Someone joined the room".to_string(),
            success: true,
            my_mark: "o".to_string(),
        },
    };
    let parsed: serde_json::Value = serde_json::from_str(&envelope.to_json()).unwrap();
    assert_eq!(parsed["response_type"].as_str().unwrap(), "room_state");
    let inner = &parsed["response"];
    assert_eq!(inner["room_id"].as_str().unwrap(), "tricky \"room\"\n");
    assert_eq!(inner["num_connections"].as_u64().unwrap(), 2);
    assert_eq!(inner["message"].as_str().unwrap(), "Someone joined the room");
    assert_eq!(inner["success"].as_bool().unwrap(), true);
    assert_eq!(inner["my_mark"].as_str().unwrap(), "o");
}
