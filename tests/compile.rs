use dialogue_ir::ast::{ChExpr, Chapter, Instruction, LineChild, Span, TextProperties};
use dialogue_ir::compile::{compile_document, text_is_whitespace, Attribute, CompileError, XmlNode};
use dialogue_ir::xml::compile_source;

fn elem(name: &str, children: Vec<XmlNode>) -> XmlNode {
    XmlNode::Element { name: name.to_string(), attributes: vec![], children }
}

fn text(t: &str) -> XmlNode {
    XmlNode::Text(t.to_string())
}

fn pi(target: &str, value: Option<&str>) -> XmlNode {
    XmlNode::ProcessingInstruction {
        target: target.to_string(),
        value: value.map(|v| v.to_string()),
    }
}

fn chapter(voice: &str, children: Vec<XmlNode>) -> XmlNode {
    XmlNode::Element {
        name: "chapter".to_string(),
        attributes: vec![Attribute { namespace: None, name: "voice".to_string(), value: voice.to_string() }],
        children,
    }
}

fn span(t: &str, speed: u32) -> LineChild {
    LineChild::Span(Span { text: t.to_string(), properties: TextProperties { speed } })
}

fn line(content: Vec<LineChild>) -> ChExpr {
    ChExpr::Line { content }
}

fn compile_line(children: Vec<XmlNode>) -> Result<Vec<LineChild>, CompileError> {
    let c = compile_document(&chapter("x", vec![elem("line", children)]))?;
    match c.chapter.content.into_iter().next() {
        Some(ChExpr::Line { content }) => Ok(content),
        other => panic!("expected a line, got {:?}", other),
    }
}

#[test]
fn compile_tree_of_intro() {
    let ws = || text("\n            ");
    let doc = chapter(
        "universe",
        vec![
            ws(),
            elem("line", vec![elem("s0", vec![text("...")])]),
            elem("await", vec![]),
            ws(),
            elem("line", vec![text("The "), elem("s4", vec![text("universe")]), text(" is silent")]),
            elem("await", vec![]),
            ws(),
            pi("play", Some("song/lowtide")),
            ws(),
            elem("line", vec![text("It's "), elem("s1", vec![text("you.")])]),
            elem("await", vec![]),
            ws(),
        ],
    );
    let compiled = compile_document(&doc).unwrap();
    assert!(compiled.skipped.is_empty());
    let expected = Chapter {
        voice: "universe".to_string(),
        content: vec![
            line(vec![span("...", 0)]),
            ChExpr::Action(dialogue_ir::ast::Action::Await),
            line(vec![span("The ", 3), span("universe", 4), span(" is silent", 3)]),
            ChExpr::Action(dialogue_ir::ast::Action::Await),
            ChExpr::Instruction(Instruction::Play { sound: "song/lowtide".to_string() }),
            line(vec![span("It's ", 3), span("you.", 1)]),
            ChExpr::Action(dialogue_ir::ast::Action::Await),
        ],
    };
    assert_eq!(compiled.chapter, expected);
}

#[test]
fn text_directly_in_chapter_is_rejected() {
    let doc = chapter("x", vec![text("plain text")]);
    assert_eq!(compile_document(&doc).unwrap_err(), CompileError::TextInChapter);
}

#[test]
fn unknown_element_is_rejected() {
    let doc = chapter("x", vec![elem("foo", vec![])]);
    assert_eq!(compile_document(&doc).unwrap_err(), CompileError::UnknownElement("foo".to_string()));
}

#[test]
fn unknown_element_in_line_is_rejected() {
    let err = compile_line(vec![elem("b", vec![text("bold")])]).unwrap_err();
    assert_eq!(err, CompileError::UnknownElement("b".to_string()));
    let err = compile_line(vec![elem("line", vec![])]).unwrap_err();
    assert_eq!(err, CompileError::UnknownElement("line".to_string()));
}

#[test]
fn unknown_instruction_is_rejected_anywhere() {
    let at_chapter = chapter("x", vec![pi("unknown", Some("val=\"x\""))]);
    assert_eq!(
        compile_document(&at_chapter).unwrap_err(),
        CompileError::UnsupportedInstruction("unknown".to_string())
    );
    let in_line = compile_line(vec![pi("unknown", Some("val=\"x\""))]).unwrap_err();
    assert_eq!(in_line, CompileError::UnsupportedInstruction("unknown".to_string()));
    let in_style = compile_line(vec![elem("s2", vec![pi("unknown", None)])]).unwrap_err();
    assert_eq!(in_style, CompileError::UnsupportedInstruction("unknown".to_string()));
}

#[test]
fn play_without_sound_is_rejected() {
    let doc = chapter("x", vec![pi("play", None)]);
    assert_eq!(compile_document(&doc).unwrap_err(), CompileError::MissingSound);
}

#[test]
fn first_error_in_document_order_wins() {
    let doc = chapter("x", vec![elem("foo", vec![]), text("plain")]);
    assert_eq!(compile_document(&doc).unwrap_err(), CompileError::UnknownElement("foo".to_string()));
    let doc = chapter("x", vec![text("plain"), elem("foo", vec![])]);
    assert_eq!(compile_document(&doc).unwrap_err(), CompileError::TextInChapter);
}

#[test]
fn root_must_be_a_chapter_with_a_voice() {
    let doc = elem("story", vec![]);
    assert_eq!(compile_document(&doc).unwrap_err(), CompileError::NotAChapter);
    assert_eq!(compile_document(&text("chapter")).unwrap_err(), CompileError::NotAChapter);
    let no_voice = elem("chapter", vec![]);
    assert_eq!(compile_document(&no_voice).unwrap_err(), CompileError::MissingVoice);
    let other_attr = XmlNode::Element {
        name: "chapter".to_string(),
        attributes: vec![
            Attribute { namespace: None, name: "lang".to_string(), value: "en".to_string() },
            Attribute { namespace: None, name: "voice".to_string(), value: "narrator".to_string() },
        ],
        children: vec![],
    };
    let c = compile_document(&other_attr).unwrap();
    assert_eq!(c.chapter.voice, "narrator");
    assert!(c.chapter.content.is_empty());
}

#[test]
fn whitespace_text_nodes_are_dropped() {
    let content = compile_line(vec![text("  "), elem("s0", vec![text("hi")]), text("  ")]).unwrap();
    assert_eq!(content, vec![span("hi", 0)]);
}

#[test]
fn default_speed_and_override() {
    assert_eq!(compile_line(vec![text("plain")]).unwrap(), vec![span("plain", 3)]);
    assert_eq!(compile_line(vec![elem("s1", vec![text("fast")])]).unwrap(), vec![span("fast", 1)]);
    assert_eq!(compile_line(vec![elem("s5", vec![text("five")])]).unwrap(), vec![span("five", 5)]);
}

#[test]
fn innermost_style_wins_and_scopes_end() {
    let content = compile_line(vec![
        elem("s1", vec![text("a"), elem("s4", vec![text("b")]), text("c")]),
        text("d"),
    ])
    .unwrap();
    assert_eq!(content, vec![span("a", 1), span("b", 4), span("c", 1), span("d", 3)]);
}

#[test]
fn instruction_inside_a_line_is_kept_in_order() {
    let content = compile_line(vec![text("a"), pi("play", Some("blip")), text("b")]).unwrap();
    assert_eq!(
        content,
        vec![
            span("a", 3),
            LineChild::Instruction(Instruction::Play { sound: "blip".to_string() }),
            span("b", 3)
        ]
    );
}

#[test]
fn comment_inside_a_line_is_skipped_with_a_warning() {
    let doc = chapter(
        "x",
        vec![XmlNode::Comment("top".to_string()), elem("line", vec![text("a"), XmlNode::Comment("note".to_string())])],
    );
    let c = compile_document(&doc).unwrap();
    assert_eq!(c.skipped, vec!["note".to_string()]);
    assert_eq!(c.chapter.content, vec![line(vec![span("a", 3)])]);
}

#[test]
fn style_element_directly_in_chapter_is_ignored() {
    let doc = chapter("x", vec![elem("s2", vec![text("ignored")]), elem("await", vec![])]);
    let c = compile_document(&doc).unwrap();
    assert_eq!(c.chapter.content, vec![ChExpr::Action(dialogue_ir::ast::Action::Await)]);
}

#[test]
fn instruction_only_line_is_possible() {
    let content = compile_line(vec![pi("play", Some("boom"))]).unwrap();
    assert_eq!(content, vec![LineChild::Instruction(Instruction::Play { sound: "boom".to_string() })]);
    assert_eq!(compile_line(vec![]).unwrap(), vec![]);
}

#[test]
fn whitespace_test_uses_unicode_white_space() {
    assert!(text_is_whitespace(""));
    assert!(text_is_whitespace(" \t\n\r\u{3000}\u{a0}"));
    assert!(!text_is_whitespace(" a "));
    assert!(!text_is_whitespace("\u{200b}"));
}

#[test]
fn source_text_is_compiled() {
    let c = compile_source(
        r#"
        <chapter voice="universe">
            <line><s0>...</s0></line><await/>
            <!-- a note -->
            <?play song/lowtide?>
            <line>It's <s1>you.</s1></line>
        </chapter>"#,
    )
    .unwrap();
    assert!(c.skipped.is_empty());
    assert_eq!(
        c.chapter,
        Chapter {
            voice: "universe".to_string(),
            content: vec![
                line(vec![span("...", 0)]),
                ChExpr::Action(dialogue_ir::ast::Action::Await),
                ChExpr::Instruction(Instruction::Play { sound: "song/lowtide".to_string() }),
                line(vec![span("It's ", 3), span("you.", 1)]),
            ],
        }
    );
}

#[test]
fn source_grammar_rejections() {
    assert_eq!(
        compile_source(r#"<chapter voice="x">plain text</chapter>"#).unwrap_err(),
        CompileError::TextInChapter
    );
    assert_eq!(
        compile_source(r#"<chapter voice="x"><foo/></chapter>"#).unwrap_err(),
        CompileError::UnknownElement("foo".to_string())
    );
    assert_eq!(
        compile_source(r#"<chapter voice="x"><?unknown val="x"?></chapter>"#).unwrap_err(),
        CompileError::UnsupportedInstruction("unknown".to_string())
    );
    assert_eq!(
        compile_source(r#"<chapter voice="x"><line>a<?unknown val="x"?></line></chapter>"#).unwrap_err(),
        CompileError::UnsupportedInstruction("unknown".to_string())
    );
    assert_eq!(compile_source("<chapter voice=\"x\"><line></chapter>").unwrap_err(), CompileError::MalformedXml);
    assert_eq!(compile_source("<story/>").unwrap_err(), CompileError::NotAChapter);
}

#[test]
fn source_whitespace_and_speeds() {
    let c = compile_source(r#"<chapter voice="x"><line>  <s0>hi</s0>  </line></chapter>"#).unwrap();
    assert_eq!(c.chapter.content, vec![line(vec![span("hi", 0)])]);
    let c = compile_source(r#"<chapter voice="x"><line>plain</line><line><s1>fast</s1></line></chapter>"#).unwrap();
    assert_eq!(c.chapter.content, vec![line(vec![span("plain", 3)]), line(vec![span("fast", 1)])]);
    let c = compile_source(r#"<chapter voice="x"><line>a<!-- odd --></line></chapter>"#).unwrap();
    assert_eq!(c.skipped, vec![" odd ".to_string()]);
}

#[test]
fn parse() {
    let p = compile_source(
        r#"
        <chapter voice="universe">
            <line><s0>...</s0></line><await/>
            <line>The <s4>universe</s4> is silent</line><await/>
            <line><s0>...</s0></line><await/>
            <line>What's <s4>that?</s4></line><await/>
            <line>A faint murmur <s4>masquerades</s4> amongst the <s4>silence.</s4></line><await/>
            <?play song/lowtide?>
            <line>It's <s1>you.</s1></line><await/>
            <line><s0>...</s0></line>
        </chapter>"#,
    )
    .unwrap();
    println!("{:?}", p.chapter);
    let aw = || ChExpr::Action(dialogue_ir::ast::Action::Await);
    assert_eq!(p.chapter.voice, "universe");
    assert_eq!(
        p.chapter.content,
        vec![
            line(vec![span("...", 0)]),
            aw(),
            line(vec![span("The ", 3), span("universe", 4), span(" is silent", 3)]),
            aw(),
            line(vec![span("...", 0)]),
            aw(),
            line(vec![span("What's ", 3), span("that?", 4)]),
            aw(),
            line(vec![
                span("A faint murmur ", 3),
                span("masquerades", 4),
                span(" amongst the ", 3),
                span("silence.", 4),
            ]),
            aw(),
            ChExpr::Instruction(Instruction::Play { sound: "song/lowtide".to_string() }),
            line(vec![span("It's ", 3), span("you.", 1)]),
            aw(),
            line(vec![span("...", 0)]),
        ]
    );
}

#[test]
fn style_element_in_chapter_is_still_checked() {
    let doc = chapter("x", vec![elem("s2", vec![text("ignored"), elem("foo", vec![])])]);
    assert_eq!(compile_document(&doc).unwrap_err(), CompileError::UnknownElement("foo".to_string()));
    let doc = chapter("x", vec![elem("s2", vec![pi("unknown", None)])]);
    assert_eq!(compile_document(&doc).unwrap_err(), CompileError::UnsupportedInstruction("unknown".to_string()));
    assert_eq!(
        compile_source(r#"<chapter voice="x"><s1>text <bad/></s1></chapter>"#).unwrap_err(),
        CompileError::UnknownElement("bad".to_string())
    );
}

#[test]
fn voice_must_be_an_attribute_in_no_namespace() {
    let c = compile_source(r#"<chapter xmlns:n="urn:n" n:voice="a" voice="b"/>"#).unwrap();
    assert_eq!(c.chapter.voice, "b");
    assert_eq!(
        compile_source(r#"<chapter xmlns:n="urn:n" n:voice="a"/>"#).unwrap_err(),
        CompileError::MissingVoice
    );
    let doc = XmlNode::Element {
        name: "chapter".to_string(),
        attributes: vec![Attribute { namespace: Some("urn:n".to_string()), name: "voice".to_string(), value: "a".to_string() }],
        children: vec![],
    };
    assert_eq!(compile_document(&doc).unwrap_err(), CompileError::MissingVoice);
}
