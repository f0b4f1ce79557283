use wasm_pong::pong::event::{event_buffer, EventWrapper};
use wasm_pong::pong::game_field::{find_input, Input, InputType};
use wasm_pong::client::{InputDTO, InputTypeDTO};

fn event(topic: &str, payload: &str) -> EventWrapper {
    EventWrapper { topic: topic.to_owned(), key: None, event: payload.to_owned() }
}

#[test]
fn event_buffer_concatenates_payload_bytes() {
    let events = vec![event("move", "{\"a\":1}"), event("input", "ü"), event("move", "")];
    assert_eq!(event_buffer(&events), "{\"a\":1}ü".as_bytes().to_vec());
    assert!(event_buffer(&vec![]).is_empty());
}

#[test]
fn input_dtos_convert() {
    assert_eq!(InputTypeDTO::UP.to_input_type(), InputType::UP);
    assert_eq!(InputTypeDTO::DOWN.to_input_type(), InputType::DOWN);
    let dto = InputDTO { input: InputTypeDTO::DOWN, obj_id: 7 };
    assert_eq!(dto.to_input(), Input { input: InputType::DOWN, obj_id: 7 });
}

#[test]
fn first_input_for_an_object_steers_it() {
    let inputs = vec![
        Input { input: InputType::UP, obj_id: 1 },
        Input { input: InputType::DOWN, obj_id: 2 },
        Input { input: InputType::DOWN, obj_id: 1 },
    ];
    assert_eq!(find_input(&inputs, 1), Some(Input { input: InputType::UP, obj_id: 1 }));
    assert_eq!(find_input(&inputs, 2), Some(Input { input: InputType::DOWN, obj_id: 2 }));
    assert_eq!(find_input(&inputs, 3), None);
    assert_eq!(find_input(&vec![], 1), None);
}
