use dialogue_ir::ast::{Action, ChExpr, Chapter, Instruction, LineChild, Span, TextProperties};
use dialogue_ir::playback::{Cue, DialogueLine, DialogueSpan, DialogueSystem, LineBuffer, TextDraw};

fn span(t: &str, speed: u32) -> LineChild {
    LineChild::Span(Span { text: t.to_string(), properties: TextProperties { speed } })
}

fn chapter(content: Vec<ChExpr>) -> Chapter {
    Chapter { voice: "narrator".to_string(), content }
}

fn line_text(l: &DialogueLine) -> String {
    let mut s = String::new();
    for span in &l.content {
        if let DialogueSpan::Text(t) = span {
            s.extend(t.iter());
        }
    }
    s
}

fn last_slot(sys: &DialogueSystem) -> Option<String> {
    sys.lines().lines().last().unwrap().as_ref().map(line_text)
}

fn text_line(t: &str) -> DialogueLine {
    DialogueLine { content: vec![DialogueSpan::Text(t.chars().collect())] }
}

/// Drives the automaton from tick 0 to `last` and returns, for each tick at
/// which the last slot changed, the tick and its new text.
fn reveal_ticks(sys: &mut DialogueSystem, last: u64) -> Vec<(u64, String)> {
    let mut seen = Vec::new();
    let mut prev = last_slot(sys);
    for t in 0..=last {
        if sys.is_exhausted() {
            break;
        }
        sys.update(t, false);
        let now = last_slot(sys);
        if now != prev {
            if let Some(s) = &now {
                seen.push((t, s.clone()));
            }
            prev = now;
        }
    }
    seen
}

#[test]
fn reveal_timing_is_deterministic() {
    let mut sys = DialogueSystem::init(chapter(vec![ChExpr::Line { content: vec![span("ab", 3)] }]));
    let seen = reveal_ticks(&mut sys, 30);
    let revealed: Vec<(u64, String)> = seen.into_iter().filter(|(_, s)| !s.is_empty()).collect();
    assert_eq!(revealed, vec![(2, "a".to_string()), (8, "ab".to_string())]);
    assert_eq!(revealed[1].0 - revealed[0].0, 6);
    assert!(sys.is_idle());
    assert!(sys.is_exhausted());
}

#[test]
fn space_does_not_wait_on_the_span_speed() {
    for speed in 0..=5 {
        let mut sys = DialogueSystem::init(chapter(vec![ChExpr::Line { content: vec![span("a b", speed)] }]));
        let seen = reveal_ticks(&mut sys, 40);
        let revealed: Vec<(u64, String)> = seen.into_iter().filter(|(_, s)| !s.is_empty()).collect();
        assert_eq!(revealed[0].1, "a");
        assert_eq!(revealed[1].1, "a ");
        assert_eq!(revealed[2].1, "a b");
        assert!(revealed[1].0 - revealed[0].0 <= 2, "speed {}", speed);
    }
}

#[test]
fn blips_for_characters_but_not_spaces() {
    let mut sys = DialogueSystem::init(chapter(vec![ChExpr::Line { content: vec![span("a b", 5)] }]));
    let mut cues = Vec::new();
    for t in 0..20 {
        if sys.is_exhausted() {
            break;
        }
        cues.extend(sys.update(t, false));
    }
    assert_eq!(cues, vec![Cue::Blip, Cue::Blip]);
}

#[test]
fn speed_six_or_more_waits_one_tick() {
    let mut sys = DialogueSystem::init(chapter(vec![ChExpr::Line { content: vec![span("abc", 9)] }]));
    let seen = reveal_ticks(&mut sys, 20);
    let revealed: Vec<(u64, String)> = seen.into_iter().filter(|(_, s)| !s.is_empty()).collect();
    assert_eq!(revealed, vec![(2, "a".to_string()), (3, "ab".to_string()), (4, "abc".to_string())]);
}

#[test]
fn line_buffer_scrolls() {
    let mut buf = LineBuffer::new(4);
    assert!(buf.lines().iter().all(|s| s.is_none()));
    for t in ["1", "2", "3", "4", "5"] {
        buf.push(text_line(t));
    }
    let texts: Vec<String> = buf.lines().iter().map(|s| line_text(s.as_ref().unwrap())).collect();
    assert_eq!(texts, vec!["2", "3", "4", "5"]);
    buf.replace_last(text_line("6"));
    let texts: Vec<String> = buf.lines().iter().map(|s| line_text(s.as_ref().unwrap())).collect();
    assert_eq!(texts, vec!["2", "3", "4", "6"]);
    buf.clear();
    assert_eq!(buf.lines().len(), 4);
    assert!(buf.lines().iter().all(|s| s.is_none()));
}

#[test]
fn partly_filled_buffer_keeps_empty_slots_first() {
    let mut buf = LineBuffer::new(4);
    buf.push(text_line("1"));
    buf.push(text_line("2"));
    let slots: Vec<Option<String>> = buf.lines().iter().map(|s| s.as_ref().map(line_text)).collect();
    assert_eq!(slots, vec![None, None, Some("1".to_string()), Some("2".to_string())]);
}

#[test]
fn await_gating() {
    let mut sys = DialogueSystem::init(chapter(vec![
        ChExpr::Action(Action::Await),
        ChExpr::Line { content: vec![span("x", 3)] },
    ]));
    assert!(sys.is_idle());
    sys.update(0, false);
    assert!(sys.is_awaiting());
    for t in 1..5 {
        let cues = sys.update(t, false);
        assert!(cues.is_empty());
        assert!(sys.is_awaiting());
        assert_eq!(sys.pending_len(), 1);
    }
    sys.update(5, true);
    assert!(sys.is_idle());
    assert_eq!(sys.pending_len(), 1);
    sys.update(6, true);
    assert_eq!(sys.pending_len(), 0);
    assert!(!sys.is_idle() && !sys.is_awaiting());
    assert_eq!(last_slot(&sys), Some(String::new()));
}

#[test]
fn play_instructions_send_their_sound() {
    let mut sys = DialogueSystem::init(chapter(vec![
        ChExpr::Instruction(Instruction::Play { sound: "song/lowtide".to_string() }),
        ChExpr::Line {
            content: vec![
                span("a", 5),
                LineChild::Instruction(Instruction::Play { sound: "boom".to_string() }),
                span("b", 5),
            ],
        },
    ]));
    assert_eq!(sys.update(0, false), vec![Cue::Sound("song/lowtide".to_string())]);
    assert!(sys.is_idle());
    assert_eq!(sys.update(1, false), vec![]);
    assert_eq!(sys.update(2, false), vec![]);
    assert_eq!(sys.update(3, false), vec![Cue::Blip]);
    assert_eq!(last_slot(&sys), Some("a".to_string()));
    assert_eq!(sys.update(4, false), vec![]);
    assert_eq!(sys.update(5, false), vec![Cue::Sound("boom".to_string())]);
    assert_eq!(sys.update(6, false), vec![Cue::Blip]);
    assert_eq!(last_slot(&sys), Some("ab".to_string()));
}

#[test]
fn draw_lays_out_slots_and_spans() {
    let mut sys = DialogueSystem::init(chapter(vec![
        ChExpr::Line { content: vec![span("ab", 5)] },
        ChExpr::Line { content: vec![span("c", 5)] },
    ]));
    assert!(sys.draw().is_empty());
    for t in 0..40 {
        if sys.is_exhausted() {
            break;
        }
        sys.update(t, false);
    }
    assert_eq!(
        sys.draw(),
        vec![
            TextDraw { x: 12, y: 226 + 2 * 12, text: vec!['a', 'b'] },
            TextDraw { x: 12, y: 226 + 3 * 12, text: vec!['c'] },
        ]
    );
    assert_eq!(sys.voice(), "narrator");
}

#[test]
fn spans_advance_by_eight_pixels_per_character() {
    let mut buf = LineBuffer::new(2);
    buf.push(DialogueLine {
        content: vec![
            DialogueSpan::Text(vec!['a', 'b', 'c']),
            DialogueSpan::Instruction(Instruction::Play { sound: "s".to_string() }),
            DialogueSpan::Text(vec!['d']),
        ],
    });
    assert_eq!(
        buf.draw(),
        vec![
            TextDraw { x: 12, y: 238, text: vec!['a', 'b', 'c'] },
            TextDraw { x: 12 + 3 * 8, y: 238, text: vec!['d'] },
        ]
    );
}

#[test]
fn revealed_spans_join_one_text() {
    let mut sys = DialogueSystem::init(chapter(vec![ChExpr::Line { content: vec![span("abc", 5), span("d", 5)] }]));
    for t in 0..40 {
        if sys.is_exhausted() {
            break;
        }
        sys.update(t, false);
    }
    assert_eq!(sys.draw(), vec![TextDraw { x: 12, y: 226 + 3 * 12, text: vec!['a', 'b', 'c', 'd'] }]);
}

#[test]
fn whitespace_other_than_space_does_not_blip() {
    let mut sys = DialogueSystem::init(chapter(vec![ChExpr::Line { content: vec![span("a\tb\nc", 5)] }]));
    let mut cues = Vec::new();
    for t in 0..60 {
        if sys.is_exhausted() {
            break;
        }
        cues.extend(sys.update(t, false));
    }
    assert_eq!(cues, vec![Cue::Blip, Cue::Blip, Cue::Blip]);
    assert_eq!(last_slot(&sys), Some("a\tb\nc".to_string()));

    let mut sys = DialogueSystem::init(chapter(vec![ChExpr::Line { content: vec![span("\t", 3)] }]));
    let mut cues = Vec::new();
    for t in 0..30 {
        if sys.is_exhausted() {
            break;
        }
        cues.extend(sys.update(t, false));
    }
    assert!(cues.is_empty());
    assert!(sys.is_idle());
}
