use dialogue_ir::ast::{Action, ChExpr, Chapter, Instruction, LineChild, Span, TextProperties};
use dialogue_ir::codec::{decode, encode};

fn sample() -> Chapter {
    Chapter {
        voice: "universe".to_string(),
        content: vec![
            ChExpr::Line {
                content: vec![
                    LineChild::Span(Span { text: "The ".to_string(), properties: TextProperties { speed: 3 } }),
                    LineChild::Span(Span { text: "ünïverse".to_string(), properties: TextProperties { speed: 4 } }),
                    LineChild::Instruction(Instruction::Play { sound: "blip".to_string() }),
                ],
            },
            ChExpr::Action(Action::Await),
            ChExpr::Instruction(Instruction::Play { sound: "song/lowtide".to_string() }),
            ChExpr::Line { content: vec![] },
        ],
    }
}

#[test]
fn round_trip() {
    let c = sample();
    let bytes = encode(&c);
    assert_eq!(decode(&bytes), Some(c));
    let empty = Chapter { voice: String::new(), content: vec![] };
    assert_eq!(decode(&encode(&empty)), Some(empty));
}

#[test]
fn encoding_layout() {
    let c = Chapter {
        voice: "v".to_string(),
        content: vec![
            ChExpr::Action(Action::Await),
            ChExpr::Line {
                content: vec![LineChild::Span(Span { text: "a".to_string(), properties: TextProperties { speed: 5 } })],
            },
        ],
    };
    let expected: Vec<u8> = vec![
        1, 0, 0, 0, 0, 0, 0, 0, b'v', // voice
        2, 0, 0, 0, 0, 0, 0, 0, // two events
        0, 0, 0, 0, 0, 0, 0, 0, // Action(Await)
        2, 0, 0, 0, 1, 0, 0, 0, 0, 0, 0, 0, // Line, one child
        0, 0, 0, 0, 1, 0, 0, 0, 0, 0, 0, 0, b'a', 5, 0, 0, 0, // Span "a" speed 5
    ];
    assert_eq!(encode(&c), expected);
}

#[test]
fn decode_rejects_trailing_bytes() {
    let mut bytes = encode(&sample());
    bytes.push(0);
    assert_eq!(decode(&bytes), None);
}

#[test]
fn decode_rejects_truncated_input() {
    let bytes = encode(&sample());
    for n in 0..bytes.len() {
        assert_eq!(decode(&bytes[..n]), None, "prefix of {} bytes", n);
    }
}

#[test]
fn decode_rejects_unknown_variant_and_bad_utf8() {
    let mut bad_tag = encode(&Chapter { voice: String::new(), content: vec![ChExpr::Action(Action::Await)] });
    bad_tag[16] = 3;
    assert_eq!(decode(&bad_tag), None);
    let bad_utf8: Vec<u8> = vec![1, 0, 0, 0, 0, 0, 0, 0, 0xff, 0, 0, 0, 0, 0, 0, 0, 0];
    assert_eq!(decode(&bad_utf8), None);
    let good: Vec<u8> = vec![1, 0, 0, 0, 0, 0, 0, 0, b'x', 0, 0, 0, 0, 0, 0, 0, 0];
    assert_eq!(decode(&good), Some(Chapter { voice: "x".to_string(), content: vec![] }));
}
