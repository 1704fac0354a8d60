//! The compiler from an XML dialogue script to a `Chapter`.
//!
//! A script is a `<chapter voice="...">` element whose children are `<line>`
//! and `<await/>` elements and `<?play SOUND?>` processing instructions.
//! Inside a line, text becomes spans, and the style elements `<s0>` to `<s5>`
//! set the reveal speed of the text they enclose.
use vstd::prelude::*;
use crate::ast::{
    Action, ChExpr, ChExprV, Chapter, ChapterV, DEFAULT_SPEED, Instruction, LineChild, LineChildV,
    Props, Span, SpanV, TextProperties, children_view, exprs_view,
};
use crate::playback::chars_of;

verus! {

/// An attribute of an XML element.
#[derive(Debug, Clone, PartialEq, Eq)]
pub struct Attribute {
    /// The namespace the attribute's name is in, if any.
    pub namespace: Option<String>,
    pub name: String,
    pub value: String,
}

/// A node of an XML document as the compiler reads it.
#[derive(Debug, PartialEq, Eq)]
pub enum XmlNode {
    Element { name: String, attributes: Vec<Attribute>, children: Vec<XmlNode> },
    Text(String),
    ProcessingInstruction { target: String, value: Option<String> },
    Comment(String),
}

/// Why a script does not compile.
#[derive(Debug, Clone, PartialEq, Eq)]
pub enum CompileError {
    /// The XML text is not well formed.
    MalformedXml,
    /// The root element is not `<chapter>`.
    NotAChapter,
    /// The `<chapter>` element has no `voice` attribute.
    MissingVoice,
    /// Text that is not whitespace stands directly in the chapter.
    TextInChapter,
    /// A processing instruction other than `play`; it holds the target.
    UnsupportedInstruction(String),
    /// A `play` instruction without a sound.
    MissingSound,
    /// An element the grammar does not have where it stands; it holds the name.
    UnknownElement(String),
}

/// Whether `c` has the Unicode `White_Space` property.
pub open spec fn white_space(c: char) -> bool {
    ||| '\u{9}' <= c <= '\u{d}'
    ||| c == ' '
    ||| c == '\u{85}'
    ||| c == '\u{a0}'
    ||| c == '\u{1680}'
    ||| '\u{2000}' <= c <= '\u{200a}'
    ||| c == '\u{2028}'
    ||| c == '\u{2029}'
    ||| c == '\u{202f}'
    ||| c == '\u{205f}'
    ||| c == '\u{3000}'
}

/// Whether `s` holds whitespace only.
pub open spec fn is_blank(s: Seq<char>) -> bool {
    forall|i: int| 0 <= i < s.len() ==> white_space(#[trigger] s[i])
}

/// Whether `c` has the Unicode `White_Space` property.
pub fn is_whitespace(c: char) -> (r: bool)
    ensures
        r == white_space(c),
{
    ('\u{9}' <= c && c <= '\u{d}') || c == ' ' || c == '\u{85}' || c == '\u{a0}' || c == '\u{1680}'
        || ('\u{2000}' <= c && c <= '\u{200a}') || c == '\u{2028}' || c == '\u{2029}' || c
        == '\u{202f}' || c == '\u{205f}' || c == '\u{3000}'
}

/// Whether `s` holds whitespace only.
pub fn text_is_whitespace(s: &str) -> (r: bool)
    ensures
        r == is_blank(s@),
{
    let cs = chars_of(s);
    let mut i: usize = 0;
    while i < cs.len()
        invariant
            i <= cs@.len(),
            cs@ == s@,
            forall|j: int| 0 <= j < i ==> white_space(#[trigger] s@[j]),
        decreases cs@.len() - i,
    {
        if !is_whitespace(cs[i]) {
            return false;
        }
        i = i + 1;
    }
    true
}

/// Whether the characters of `s` are those of `w`.
fn is_word(s: &str, w: &str) -> (r: bool)
    ensures
        r == (s@ == w@),
{
    let a = chars_of(s);
    let b = chars_of(w);
    if a.len() != b.len() {
        return false;
    }
    let mut i: usize = 0;
    while i < a.len()
        invariant
            i <= a@.len(),
            a@ == s@,
            b@ == w@,
            a@.len() == b@.len(),
            forall|j: int| 0 <= j < i ==> a@[j] == b@[j],
        decreases a@.len() - i,
    {
        if a[i] != b[i] {
            return false;
        }
        i = i + 1;
    }
    assert(a@ =~= b@);
    true
}

/// The speed that the style element named `name` sets, if it is one.
pub open spec fn style_speed(name: Seq<char>) -> Option<u32> {
    if name.len() == 2 && name[0] == 's' && '0' <= name[1] <= '5' {
        Some((name[1] as u32 - '0' as u32) as u32)
    } else {
        None
    }
}

/// The style scope that the element named `name` opens, if it is a style
/// element.
fn style_of(name: &str) -> (r: Option<Props>)
    ensures
        r == match style_speed(name@) {
            Some(k) => Some(Props::Speed(k)),
            None => None::<Props>,
        },
{
    let cs = chars_of(name);
    if cs.len() == 2 && cs[0] == 's' && '0' <= cs[1] && cs[1] <= '5' {
        Some(Props::Speed(cs[1] as u32 - '0' as u32))
    } else {
        None
    }
}

/// The value of the first attribute named `name` in no namespace.
pub open spec fn attribute_value(attrs: Seq<Attribute>, name: Seq<char>) -> Option<Seq<char>>
    decreases attrs.len(),
{
    if attrs.len() == 0 {
        None
    } else if attrs[0].namespace is None && attrs[0].name@ == name {
        Some(attrs[0].value@)
    } else {
        attribute_value(attrs.drop_first(), name)
    }
}

fn get_attribute<'a>(attrs: &'a Vec<Attribute>, name: &str) -> (r: Option<&'a String>)
    ensures
        match r {
            Some(v) => attribute_value(attrs@, name@) == Some(v@),
            None => attribute_value(attrs@, name@) is None,
        },
{
    let mut i: usize = 0;
    assert(attrs@.subrange(0, attrs@.len() as int) =~= attrs@);
    while i < attrs.len()
        invariant
            i <= attrs@.len(),
            attribute_value(attrs@, name@) == attribute_value(attrs@.subrange(i as int, attrs@.len() as int), name@),
        decreases attrs@.len() - i,
    {
        let ghost rest = attrs@.subrange(i as int, attrs@.len() as int);
        assert(rest.drop_first() =~= attrs@.subrange(i + 1, attrs@.len() as int));
        if attrs[i].namespace.is_none() && is_word(attrs[i].name.as_str(), name) {
            return Some(&attrs[i].value);
        }
        i = i + 1;
    }
    None
}

/// The items a part of a script compiles to and the text of the fragments it
/// skips, or the first error in document order.
pub type Part<A> = Result<(Seq<A>, Seq<Seq<char>>), CompileError>;

/// Two consecutive parts of a script: the first error wins.
pub open spec fn combine<A>(a: Part<A>, b: Part<A>) -> Part<A> {
    match a {
        Err(e) => Err(e),
        Ok((x, w)) => match b {
            Err(e) => Err(e),
            Ok((y, v)) => Ok((x + y, w + v)),
        },
    }
}

/// The sound of a processing instruction.
pub open spec fn instruction_sound(target: String, value: Option<String>) -> Result<
    Seq<char>,
    CompileError,
> {
    if target@ == "play"@ {
        match value {
            Some(v) => Ok(v@),
            None => Err(CompileError::MissingSound),
        }
    } else {
        Err(CompileError::UnsupportedInstruction(target))
    }
}

/// What a node inside a line compiles to, under reveal speed `speed`. Text
/// that is whitespace only is dropped; a comment is skipped with a warning.
pub open spec fn line_node(n: XmlNode, speed: u32) -> Part<LineChildV>
    decreases n,
{
    match n {
        XmlNode::Element { name, attributes, children } => match style_speed(name@) {
            Some(k) => line_nodes(children@, k),
            None => Err(CompileError::UnknownElement(name)),
        },
        XmlNode::Text(t) => {
            if is_blank(t@) {
                Ok((seq![], seq![]))
            } else {
                Ok((seq![LineChildV::Span(SpanV { text: t@, speed })], seq![]))
            }
        },
        XmlNode::ProcessingInstruction { target, value } => match instruction_sound(target, value) {
            Ok(sound) => Ok((seq![LineChildV::Play(sound)], seq![])),
            Err(e) => Err(e),
        },
        XmlNode::Comment(c) => Ok((seq![], seq![c@])),
    }
}

/// What a sequence of nodes inside a line compiles to, under speed `speed`.
pub open spec fn line_nodes(ns: Seq<XmlNode>, speed: u32) -> Part<LineChildV>
    decreases ns,
{
    if ns.len() == 0 {
        Ok((seq![], seq![]))
    } else {
        combine(
            line_nodes(ns.subrange(0, ns.len() - 1), speed),
            line_node(ns[ns.len() - 1], speed),
        )
    }
}

/// What a child of the chapter element compiles to. A style element there
/// adds nothing, but what it encloses must still compile as line content;
/// whitespace-only text and comments are dropped.
pub open spec fn chapter_node(n: XmlNode) -> Part<ChExprV> {
    match n {
        XmlNode::Element { name, attributes, children } => {
            if name@ == "line"@ {
                match line_nodes(children@, DEFAULT_SPEED) {
                    Ok((cs, w)) => Ok((seq![ChExprV::Line(cs)], w)),
                    Err(e) => Err(e),
                }
            } else if name@ == "await"@ {
                Ok((seq![ChExprV::Await], seq![]))
            } else if style_speed(name@) is Some {
                match line_nodes(children@, style_speed(name@)->0) {
                    Ok(_) => Ok((seq![], seq![])),
                    Err(e) => Err(e),
                }
            } else {
                Err(CompileError::UnknownElement(name))
            }
        },
        XmlNode::Text(t) => {
            if is_blank(t@) {
                Ok((seq![], seq![]))
            } else {
                Err(CompileError::TextInChapter)
            }
        },
        XmlNode::ProcessingInstruction { target, value } => match instruction_sound(target, value) {
            Ok(sound) => Ok((seq![ChExprV::Play(sound)], seq![])),
            Err(e) => Err(e),
        },
        XmlNode::Comment(_) => Ok((seq![], seq![])),
    }
}

/// What the children of the chapter element compile to.
pub open spec fn chapter_nodes(ns: Seq<XmlNode>) -> Part<ChExprV>
    decreases ns.len(),
{
    if ns.len() == 0 {
        Ok((seq![], seq![]))
    } else {
        combine(chapter_nodes(ns.drop_last()), chapter_node(ns.last()))
    }
}

/// What a document whose root element is `root` compiles to: the chapter
/// and the text of the fragments skipped with a warning, or the first error.
pub open spec fn compile_spec(root: XmlNode) -> Result<(ChapterV, Seq<Seq<char>>), CompileError> {
    match root {
        XmlNode::Element { name, attributes, children } => {
            if name@ != "chapter"@ {
                Err(CompileError::NotAChapter)
            } else {
                match attribute_value(attributes@, "voice"@) {
                    None => Err(CompileError::MissingVoice),
                    Some(voice) => match chapter_nodes(children@) {
                        Ok((content, w)) => Ok((ChapterV { voice, content }, w)),
                        Err(e) => Err(e),
                    },
                }
            }
        },
        _ => Err(CompileError::NotAChapter),
    }
}

/// The views of a sequence of strings.
pub open spec fn strings_view(v: Seq<String>) -> Seq<Seq<char>> {
    v.map_values(|s: String| s@)
}

/// A compiled chapter with the text of the fragments that were skipped.
#[derive(Debug)]
pub struct Compiled {
    pub chapter: Chapter,
    pub skipped: Vec<String>,
}

fn compile_instruction(target: &String, value: &Option<String>) -> (r: Result<String, CompileError>)
    ensures
        match instruction_sound(*target, *value) {
            Ok(sound) => r is Ok && r->Ok_0@ == sound,
            Err(e) => r == Err::<String, CompileError>(e),
        },
{
    if is_word(target.as_str(), "play") {
        match value {
            Some(v) => Ok(v.clone()),
            None => Err(CompileError::MissingSound),
        }
    } else {
        Err(CompileError::UnsupportedInstruction(target.clone()))
    }
}

fn compile_line_node(
    n: &XmlNode,
    speed: u32,
    out: &mut Vec<LineChild>,
    skipped: &mut Vec<String>,
) -> (r: Result<(), CompileError>)
    ensures
        match line_node(*n, speed) {
            Ok((cs, w)) => r is Ok && children_view(final(out)@) == children_view(old(out)@) + cs
                && strings_view(final(skipped)@) == strings_view(old(skipped)@) + w,
            Err(e) => r == Err::<(), CompileError>(e),
        },
    decreases n,
{
    match n {
        XmlNode::Element { name, attributes, children } => match style_of(name.as_str()) {
            Some(Props::Speed(k)) => compile_line_nodes(children, k, out, skipped),
            None => Err(CompileError::UnknownElement(name.clone())),
        },
        XmlNode::Text(t) => {
            if !text_is_whitespace(t.as_str()) {
                out.push(
                    LineChild::Span(Span { text: t.clone(), properties: TextProperties { speed } }),
                );
            }
            assert(children_view(out@) =~= children_view(old(out)@) + line_node(*n, speed)->Ok_0.0);
            assert(strings_view(skipped@) =~= strings_view(old(skipped)@) + seq![]);
            Ok(())
        },
        XmlNode::ProcessingInstruction { target, value } => {
            let sound = compile_instruction(target, value)?;
            out.push(LineChild::Instruction(Instruction::Play { sound }));
            assert(children_view(out@) =~= children_view(old(out)@) + line_node(*n, speed)->Ok_0.0);
            assert(strings_view(skipped@) =~= strings_view(old(skipped)@) + seq![]);
            Ok(())
        },
        XmlNode::Comment(c) => {
            skipped.push(c.clone());
            assert(children_view(out@) =~= children_view(old(out)@) + seq![]);
            assert(strings_view(skipped@) =~= strings_view(old(skipped)@) + seq![c@]);
            Ok(())
        },
    }
}

proof fn lemma_line_nodes_err(ns: Seq<XmlNode>, i: int, speed: u32)
    requires
        0 <= i <= ns.len(),
        line_nodes(ns.subrange(0, i), speed) is Err,
    ensures
        line_nodes(ns, speed) == line_nodes(ns.subrange(0, i), speed),
    decreases ns.len() - i,
{
    if i < ns.len() {
        let next = ns.subrange(0, i + 1);
        assert(next.subrange(0, i) =~= ns.subrange(0, i));
        lemma_line_nodes_err(ns, i + 1, speed);
    } else {
        assert(ns.subrange(0, i) =~= ns);
    }
}

fn compile_line_nodes(
    ns: &Vec<XmlNode>,
    speed: u32,
    out: &mut Vec<LineChild>,
    skipped: &mut Vec<String>,
) -> (r: Result<(), CompileError>)
    ensures
        match line_nodes(ns@, speed) {
            Ok((cs, w)) => r is Ok && children_view(final(out)@) == children_view(old(out)@) + cs
                && strings_view(final(skipped)@) == strings_view(old(skipped)@) + w,
            Err(e) => r == Err::<(), CompileError>(e),
        },
    decreases ns@,
{
    let mut i: usize = 0;
    assert(ns@.subrange(0, 0) =~= seq![]);
    assert(children_view(out@) =~= children_view(old(out)@) + seq![]);
    assert(strings_view(skipped@) =~= strings_view(old(skipped)@) + seq![]);
    while i < ns.len()
        invariant
            i <= ns@.len(),
            match line_nodes(ns@.subrange(0, i as int), speed) {
                Ok((cs, w)) => children_view(out@) == children_view(old(out)@) + cs
                    && strings_view(skipped@) == strings_view(old(skipped)@) + w,
                Err(_) => false,
            },
        decreases ns@.len() - i,
    {
        let ghost pre = ns@.subrange(0, i as int);
        let ghost next = ns@.subrange(0, i + 1);
        assert(next.subrange(0, next.len() - 1) =~= pre);
        assert(next[next.len() - 1] == ns@[i as int]);
        let ghost out_before = out@;
        let ghost skipped_before = skipped@;
        proof {
            assert(decreases_to!(ns@ => ns@[i as int]));
        }
        match compile_line_node(&ns[i], speed, out, skipped) {
            Ok(()) => {},
            Err(e) => {
                proof {
                    lemma_line_nodes_err(ns@, i + 1, speed);
                }
                return Err(e);
            },
        }
        proof {
            let a = line_nodes(pre, speed)->Ok_0;
            let b = line_node(ns@[i as int], speed)->Ok_0;
            assert(children_view(out@) =~= children_view(old(out)@) + (a.0 + b.0));
            assert(strings_view(skipped@) =~= strings_view(old(skipped)@) + (a.1 + b.1));
        }
        i = i + 1;
    }
    assert(ns@.subrange(0, i as int) =~= ns@);
    Ok(())
}

fn compile_chapter_node(
    n: &XmlNode,
    out: &mut Vec<ChExpr>,
    skipped: &mut Vec<String>,
) -> (r: Result<(), CompileError>)
    ensures
        match chapter_node(*n) {
            Ok((es, w)) => r is Ok && exprs_view(final(out)@) == exprs_view(old(out)@) + es
                && strings_view(final(skipped)@) == strings_view(old(skipped)@) + w,
            Err(e) => r == Err::<(), CompileError>(e),
        },
{
    match n {
        XmlNode::Element { name, attributes, children } => {
            if is_word(name.as_str(), "line") {
                let mut content: Vec<LineChild> = Vec::new();
                compile_line_nodes(children, DEFAULT_SPEED, &mut content, skipped)?;
                assert(children_view(content@) =~= seq![] + line_nodes(children@, DEFAULT_SPEED)->Ok_0.0);
                out.push(ChExpr::Line { content });
                assert(exprs_view(out@) =~= exprs_view(old(out)@) + chapter_node(*n)->Ok_0.0);
                Ok(())
            } else if is_word(name.as_str(), "await") {
                out.push(ChExpr::Action(Action::Await));
                assert(exprs_view(out@) =~= exprs_view(old(out)@) + chapter_node(*n)->Ok_0.0);
                assert(strings_view(skipped@) =~= strings_view(old(skipped)@) + seq![]);
                Ok(())
            } else if let Some(Props::Speed(k)) = style_of(name.as_str()) {
                let mut ignored: Vec<LineChild> = Vec::new();
                let mut ignored_skipped: Vec<String> = Vec::new();
                compile_line_nodes(children, k, &mut ignored, &mut ignored_skipped)?;
                assert(exprs_view(out@) =~= exprs_view(old(out)@) + seq![]);
                assert(strings_view(skipped@) =~= strings_view(old(skipped)@) + seq![]);
                Ok(())
            } else {
                Err(CompileError::UnknownElement(name.clone()))
            }
        },
        XmlNode::Text(t) => {
            if text_is_whitespace(t.as_str()) {
                assert(exprs_view(out@) =~= exprs_view(old(out)@) + seq![]);
                assert(strings_view(skipped@) =~= strings_view(old(skipped)@) + seq![]);
                Ok(())
            } else {
                Err(CompileError::TextInChapter)
            }
        },
        XmlNode::ProcessingInstruction { target, value } => {
            let sound = compile_instruction(target, value)?;
            out.push(ChExpr::Instruction(Instruction::Play { sound }));
            assert(exprs_view(out@) =~= exprs_view(old(out)@) + chapter_node(*n)->Ok_0.0);
            assert(strings_view(skipped@) =~= strings_view(old(skipped)@) + seq![]);
            Ok(())
        },
        XmlNode::Comment(_) => {
            assert(exprs_view(out@) =~= exprs_view(old(out)@) + seq![]);
            assert(strings_view(skipped@) =~= strings_view(old(skipped)@) + seq![]);
            Ok(())
        },
    }
}

proof fn lemma_chapter_nodes_err(ns: Seq<XmlNode>, i: int)
    requires
        0 <= i <= ns.len(),
        chapter_nodes(ns.subrange(0, i)) is Err,
    ensures
        chapter_nodes(ns) == chapter_nodes(ns.subrange(0, i)),
    decreases ns.len() - i,
{
    if i < ns.len() {
        let next = ns.subrange(0, i + 1);
        assert(next.drop_last() =~= ns.subrange(0, i));
        lemma_chapter_nodes_err(ns, i + 1);
    } else {
        assert(ns.subrange(0, i) =~= ns);
    }
}

fn compile_chapter_nodes(ns: &Vec<XmlNode>, out: &mut Vec<ChExpr>, skipped: &mut Vec<String>) -> (r:
    Result<(), CompileError>)
    ensures
        match chapter_nodes(ns@) {
            Ok((es, w)) => r is Ok && exprs_view(final(out)@) == exprs_view(old(out)@) + es
                && strings_view(final(skipped)@) == strings_view(old(skipped)@) + w,
            Err(e) => r == Err::<(), CompileError>(e),
        },
{
    let mut i: usize = 0;
    assert(ns@.subrange(0, 0) =~= seq![]);
    assert(exprs_view(out@) =~= exprs_view(old(out)@) + seq![]);
    assert(strings_view(skipped@) =~= strings_view(old(skipped)@) + seq![]);
    while i < ns.len()
        invariant
            i <= ns@.len(),
            match chapter_nodes(ns@.subrange(0, i as int)) {
                Ok((es, w)) => exprs_view(out@) == exprs_view(old(out)@) + es
                    && strings_view(skipped@) == strings_view(old(skipped)@) + w,
                Err(_) => false,
            },
        decreases ns@.len() - i,
    {
        let ghost pre = ns@.subrange(0, i as int);
        let ghost next = ns@.subrange(0, i + 1);
        assert(next.drop_last() =~= pre);
        assert(next.last() == ns@[i as int]);
        match compile_chapter_node(&ns[i], out, skipped) {
            Ok(()) => {},
            Err(e) => {
                proof {
                    lemma_chapter_nodes_err(ns@, i + 1);
                }
                return Err(e);
            },
        }
        proof {
            let a = chapter_nodes(pre)->Ok_0;
            let b = chapter_node(ns@[i as int])->Ok_0;
            assert(exprs_view(out@) =~= exprs_view(old(out)@) + (a.0 + b.0));
            assert(strings_view(skipped@) =~= strings_view(old(skipped)@) + (a.1 + b.1));
        }
        i = i + 1;
    }
    assert(ns@.subrange(0, i as int) =~= ns@);
    Ok(())
}

/// Compiles the document whose root element is `root`: the chapter and the
/// text of each fragment skipped with a warning, or the first error in
/// document order.
pub fn compile_document(root: &XmlNode) -> (r: Result<Compiled, CompileError>)
    ensures
        match compile_spec(*root) {
            Ok((c, w)) => r is Ok && r->Ok_0.chapter@ == c && strings_view(r->Ok_0.skipped@) == w,
            Err(e) => r == Err::<Compiled, CompileError>(e),
        },
{
    match root {
        XmlNode::Element { name, attributes, children } => {
            if !is_word(name.as_str(), "chapter") {
                return Err(CompileError::NotAChapter);
            }
            let voice = match get_attribute(attributes, "voice") {
                Some(v) => v.clone(),
                None => return Err(CompileError::MissingVoice),
            };
            let mut content: Vec<ChExpr> = Vec::new();
            let mut skipped: Vec<String> = Vec::new();
            compile_chapter_nodes(children, &mut content, &mut skipped)?;
            assert(exprs_view(content@) =~= seq![] + chapter_nodes(children@)->Ok_0.0);
            assert(strings_view(skipped@) =~= seq![] + chapter_nodes(children@)->Ok_0.1);
            Ok(Compiled { chapter: Chapter { voice, content }, skipped })
        },
        _ => Err(CompileError::NotAChapter),
    }
}

} // verus!
