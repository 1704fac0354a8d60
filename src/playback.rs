//! The dialogue playback automaton: it walks a chapter's events and, one tick
//! at a time, reveals each line character by character into a scrolling
//! buffer of the last few lines.
use vstd::prelude::*;
use crate::compile::{is_whitespace, white_space};
use crate::ast::{
    Action, ChExpr, ChExprV, Chapter, Instruction, LineChild, LineChildV, children_view, exprs_view,
};

verus! {

broadcast use {vstd::string::group_string_axioms};

/// A part of a displayed line: revealed text, or an inline instruction.
#[derive(Debug, Clone, PartialEq, Eq)]
pub enum DialogueSpan {
    Text(Vec<char>),
    Instruction(Instruction),
}

/// The mathematical value of a `DialogueSpan`.
pub enum DialogueSpanV {
    Text(Seq<char>),
    Play(Seq<char>),
}

impl View for DialogueSpan {
    type V = DialogueSpanV;

    open spec fn view(&self) -> DialogueSpanV {
        match self {
            DialogueSpan::Text(t) => DialogueSpanV::Text(t@),
            DialogueSpan::Instruction(i) => DialogueSpanV::Play(i@),
        }
    }
}

/// A line as displayed so far.
#[derive(Debug, Clone, PartialEq, Eq)]
pub struct DialogueLine {
    pub content: Vec<DialogueSpan>,
}

impl View for DialogueLine {
    type V = Seq<DialogueSpanV>;

    open spec fn view(&self) -> Seq<DialogueSpanV> {
        self.content@.map_values(|s: DialogueSpan| s@)
    }
}

/// The view of one slot of a line buffer.
pub open spec fn slot_view(s: Option<DialogueLine>) -> Option<Seq<DialogueSpanV>> {
    match s {
        Some(l) => Some(l@),
        None => None,
    }
}

/// The slots after a line is pushed: every line moves one slot toward the
/// front, the oldest falls off, and the new line takes the last slot.
pub open spec fn pushed(
    slots: Seq<Option<Seq<DialogueSpanV>>>,
    line: Seq<DialogueSpanV>,
) -> Seq<Option<Seq<DialogueSpanV>>> {
    if slots.len() == 0 {
        slots
    } else {
        slots.drop_first().push(Some(line))
    }
}

/// The slots after the last one is overwritten with `line`.
pub open spec fn with_last(
    slots: Seq<Option<Seq<DialogueSpanV>>>,
    line: Seq<DialogueSpanV>,
) -> Seq<Option<Seq<DialogueSpanV>>> {
    if slots.len() == 0 {
        slots
    } else {
        slots.update(slots.len() - 1, Some(line))
    }
}

/// The slots after each line of `ls` is pushed in turn.
pub open spec fn push_all(
    slots: Seq<Option<Seq<DialogueSpanV>>>,
    ls: Seq<Seq<DialogueSpanV>>,
) -> Seq<Option<Seq<DialogueSpanV>>>
    decreases ls.len(),
{
    if ls.len() == 0 {
        slots
    } else {
        pushed(push_all(slots, ls.drop_last()), ls.last())
    }
}

/// Pushing lines into a buffer keeps its number of slots, and leaves in slot
/// `i` the line pushed `n - i` pushes ago, where the buffer has `n` slots:
/// the last `n` lines pushed, oldest first. Any earlier line is gone, and
/// where fewer than `n` lines were pushed, the first slots keep what they
/// held, moved toward the front.
pub proof fn lemma_scroll(slots: Seq<Option<Seq<DialogueSpanV>>>, ls: Seq<Seq<DialogueSpanV>>)
    requires
        slots.len() > 0,
    ensures
        push_all(slots, ls).len() == slots.len(),
        forall|i: int|
            0 <= i < slots.len() ==> #[trigger] push_all(slots, ls)[i] == if i + ls.len()
                >= slots.len() {
                Some(ls[i + ls.len() - slots.len()])
            } else {
                slots[i + ls.len()]
            },
    decreases ls.len(),
{
    if ls.len() > 0 {
        let prev = ls.drop_last();
        lemma_scroll(slots, prev);
        let p = push_all(slots, prev);
        assert forall|i: int| 0 <= i < slots.len() implies #[trigger] push_all(slots, ls)[i]
            == if i + ls.len() >= slots.len() {
            Some(ls[i + ls.len() - slots.len()])
        } else {
            slots[i + ls.len()]
        } by {
            if i < slots.len() - 1 {
                assert(push_all(slots, ls)[i] == p[i + 1]);
            }
        }
    }
}

/// A fixed number of slots holding the most recent lines, oldest first.
#[derive(Debug)]
pub struct LineBuffer {
    lines: Vec<Option<DialogueLine>>,
}

impl View for LineBuffer {
    type V = Seq<Option<Seq<DialogueSpanV>>>;

    closed spec fn view(&self) -> Seq<Option<Seq<DialogueSpanV>>> {
        self.lines@.map_values(|s: Option<DialogueLine>| slot_view(s))
    }
}

impl LineBuffer {
    /// A buffer of `size` empty slots.
    pub fn new(size: usize) -> (r: Self)
        ensures
            r@ == Seq::new(size as nat, |i: int| None::<Seq<DialogueSpanV>>),
    {
        let mut lines: Vec<Option<DialogueLine>> = Vec::new();
        let mut i: usize = 0;
        while i < size
            invariant
                i <= size,
                lines@.len() == i,
                forall|j: int| 0 <= j < i ==> lines@[j] is None,
            decreases size - i,
        {
            lines.push(None);
            i = i + 1;
        }
        let r = Self { lines };
        assert(r@ =~= Seq::new(size as nat, |i: int| None::<Seq<DialogueSpanV>>));
        r
    }

    /// Scrolls the buffer by one line and puts `line` in the last slot.
    pub fn push(&mut self, line: DialogueLine)
        ensures
            final(self)@ == pushed(old(self)@, line@),
    {
        if self.lines.len() > 0 {
            self.lines.remove(0);
            self.lines.push(Some(line));
            assert(self@ =~= pushed(old(self)@, line@));
        }
    }

    /// Empties every slot.
    pub fn clear(&mut self)
        ensures
            final(self)@ == Seq::new(old(self)@.len(), |i: int| None::<Seq<DialogueSpanV>>),
    {
        let n = self.lines.len();
        let mut i: usize = 0;
        while i < n
            invariant
                i <= n,
                self.lines@.len() == n,
                forall|j: int| 0 <= j < i ==> self.lines@[j] is None,
            decreases n - i,
        {
            self.lines.set(i, None);
            i = i + 1;
        }
        assert(self@ =~= Seq::new(old(self)@.len(), |i: int| None::<Seq<DialogueSpanV>>));
    }

    /// Overwrites the last slot with `line`.
    pub fn replace_last(&mut self, line: DialogueLine)
        ensures
            final(self)@ == with_last(old(self)@, line@),
    {
        let n = self.lines.len();
        if n > 0 {
            self.lines.set(n - 1, Some(line));
            assert(self@ =~= with_last(old(self)@, line@));
        }
    }

    /// The slots, oldest first.
    pub fn lines(&self) -> (r: &Vec<Option<DialogueLine>>)
        ensures
            r@.map_values(|s: Option<DialogueLine>| slot_view(s)) == self@,
    {
        &self.lines
    }
}

/// An audio cue for the audio collaborator.
#[derive(Debug, Clone, PartialEq, Eq)]
pub enum Cue {
    /// The short effect played for each revealed character that is not
    /// whitespace.
    Blip,
    /// A sound named by a play instruction.
    Sound(String),
}

/// The mathematical value of a `Cue`.
pub enum CueV {
    Blip,
    Sound(Seq<char>),
}

impl View for Cue {
    type V = CueV;

    open spec fn view(&self) -> CueV {
        match self {
            Cue::Blip => CueV::Blip,
            Cue::Sound(s) => CueV::Sound(s@),
        }
    }
}

/// The views of a sequence of cues.
pub open spec fn cues_view(v: Seq<Cue>) -> Seq<CueV> {
    v.map_values(|c: Cue| c@)
}

/// The ticks to wait after revealing a character of a span of speed
/// `speed`: faster for higher speeds, and never less than one tick.
pub open spec fn reveal_delay(speed: u32) -> u64 {
    if speed < 6 {
        (2 * (6 - speed)) as u64
    } else {
        1
    }
}

/// The ticks to wait after revealing `ch` when `next` comes after it in the
/// span: a space is never held back by the per-character delay, neither the
/// wait for it nor the wait after it.
pub open spec fn wait_after(ch: char, next: Option<char>, speed: u32) -> u64 {
    if ch == ' ' || next == Some(' ') {
        2
    } else {
        reveal_delay(speed)
    }
}

/// `out` with `ch` appended to its last text span, or to a new text span
/// when `out` is empty.
pub open spec fn append_char(out: Seq<DialogueSpanV>, ch: char) -> Seq<DialogueSpanV> {
    if out.len() == 0 {
        seq![DialogueSpanV::Text(seq![ch])]
    } else {
        match out.last() {
            DialogueSpanV::Text(t) => out.update(out.len() - 1, DialogueSpanV::Text(t.push(ch))),
            DialogueSpanV::Play(_) => out,
        }
    }
}

/// A span being revealed: its characters, how many are shown, its speed.
pub struct SpanIterV {
    pub chars: Seq<char>,
    pub pos: int,
    pub speed: u32,
}

/// A line being revealed: the children still to pull, the line as shown so
/// far, the first tick at which it may advance, and the span in progress.
pub struct OutputLineV {
    pub children: Seq<LineChildV>,
    pub out: Seq<DialogueSpanV>,
    pub next_update: u64,
    pub wip: Option<SpanIterV>,
}

/// One reveal step of a line at tick `ticks`: the line after it, whether the
/// line is complete, and the cues it sends. Inline instructions cost no time:
/// their sounds are sent and the next child is pulled at once.
pub open spec fn reveal_step(o: OutputLineV, ticks: u64) -> (OutputLineV, bool, Seq<CueV>)
    decreases o.children.len(),
{
    if ticks < o.next_update {
        (o, false, seq![])
    } else {
        match o.wip {
            Some(w) => {
                if 0 <= w.pos < w.chars.len() {
                    let ch = w.chars[w.pos];
                    let next = if w.pos + 1 < w.chars.len() {
                        Some(w.chars[w.pos + 1])
                    } else {
                        None
                    };
                    let wip = if w.pos + 1 < w.chars.len() {
                        Some(SpanIterV { pos: w.pos + 1, ..w })
                    } else {
                        None
                    };
                    let o2 = OutputLineV {
                        out: append_char(o.out, ch),
                        next_update: ticks.saturating_add(wait_after(ch, next, w.speed)),
                        wip,
                        ..o
                    };
                    (o2, false, if white_space(ch) { seq![] } else { seq![CueV::Blip] })
                } else {
                    (OutputLineV { wip: None, ..o }, false, seq![])
                }
            },
            None => {
                if o.children.len() == 0 {
                    (o, true, seq![])
                } else {
                    let rest = OutputLineV { children: o.children.drop_first(), ..o };
                    match o.children[0] {
                        LineChildV::Span(s) => (
                            OutputLineV {
                                wip: Some(SpanIterV { chars: s.text, pos: 0, speed: s.speed }),
                                ..rest
                            },
                            false,
                            seq![],
                        ),
                        LineChildV::Play(sound) => {
                            let r = reveal_step(rest, ticks);
                            (r.0, r.1, seq![CueV::Sound(sound)] + r.2)
                        },
                    }
                }
            },
        }
    }
}

struct SpanIter {
    chars: Vec<char>,
    pos: usize,
    speed: u32,
}

impl View for SpanIter {
    type V = SpanIterV;

    closed spec fn view(&self) -> SpanIterV {
        SpanIterV { chars: self.chars@, pos: self.pos as int, speed: self.speed }
    }
}

struct OutputLine {
    children: Vec<LineChild>,
    out: DialogueLine,
    next_update: u64,
    wip: Option<SpanIter>,
}

spec fn wip_view(w: Option<SpanIter>) -> Option<SpanIterV> {
    match w {
        Some(i) => Some(i@),
        None => None,
    }
}

impl View for OutputLine {
    type V = OutputLineV;

    closed spec fn view(&self) -> OutputLineV {
        OutputLineV {
            children: children_view(self.children@),
            out: self.out@,
            next_update: self.next_update,
            wip: wip_view(self.wip),
        }
    }
}

/// The characters of `s`, in order.
pub(crate) fn chars_of(s: &str) -> (r: Vec<char>)
    ensures
        r@ == s@,
{
    let mut r: Vec<char> = Vec::new();
    for c in it: s.chars()
        invariant
            r@ == it.seq().take(it.index() as int),
    {
        r.push(c);
        assert(r@ =~= it.seq().take(it.index() as int + 1));
    }
    assert(r@ =~= s@);
    r
}

/// Appends `ch` to the last text span of `out`, or starts a text span when
/// `out` is empty.
fn push_char(out: &mut DialogueLine, ch: char)
    ensures
        final(out)@ == append_char(old(out)@, ch),
{
    let n = out.content.len();
    if n == 0 {
        let mut t: Vec<char> = Vec::new();
        t.push(ch);
        out.content.push(DialogueSpan::Text(t));
        assert(out@ =~= append_char(old(out)@, ch));
    } else {
        let last = out.content.pop().unwrap();
        match last {
            DialogueSpan::Text(mut t) => {
                t.push(ch);
                out.content.push(DialogueSpan::Text(t));
            },
            other => {
                out.content.push(other);
            },
        }
        assert(out@ =~= append_char(old(out)@, ch));
    }
}

impl OutputLine {
    /// One reveal step at tick `ticks`; returns whether the line is complete.
    fn advance(&mut self, ticks: u64, cues: &mut Vec<Cue>) -> (done: bool)
        ensures
            ({
                let r = reveal_step(old(self)@, ticks);
                &&& final(self)@ == r.0
                &&& done == r.1
                &&& cues_view(final(cues)@) == cues_view(old(cues)@) + r.2
            }),
    {
        if ticks < self.next_update {
            assert(cues_view(cues@) =~= cues_view(old(cues)@) + seq![]);
            return false;
        }
        let wip = self.wip.take();
        match wip {
            Some(w) => {
                let n = w.chars.len();
                if w.pos < n {
                    let ch = w.chars[w.pos];
                    let next_is_space = w.pos + 1 < n && w.chars[w.pos + 1] == ' ';
                    push_char(&mut self.out, ch);
                    let wait: u64 = if ch == ' ' || next_is_space {
                        2
                    } else if w.speed < 6 {
                        (2 * (6 - w.speed)) as u64
                    } else {
                        1
                    };
                    self.next_update = ticks.saturating_add(wait);
                    if !is_whitespace(ch) {
                        cues.push(Cue::Blip);
                    }
                    if w.pos + 1 < n {
                        self.wip = Some(SpanIter { chars: w.chars, pos: w.pos + 1, speed: w.speed });
                    }
                }
                assert(cues_view(cues@) =~= cues_view(old(cues)@) + reveal_step(old(self)@, ticks).2);
                false
            },
            None => {
                loop
                    invariant
                        self.wip is None,
                        ticks >= self.next_update,
                        ({
                            let r = reveal_step(self@, ticks);
                            let r0 = reveal_step(old(self)@, ticks);
                            &&& r0.0 == r.0
                            &&& r0.1 == r.1
                            &&& cues_view(old(cues)@) + r0.2 == cues_view(cues@) + r.2
                        }),
                    decreases self.children.len(),
                {
                    if self.children.len() == 0 {
                        assert(cues_view(cues@) + seq![] =~= cues_view(cues@));
                        return true;
                    }
                    let ghost before = self@;
                    let ghost before_cues = cues@;
                    let child = self.children.remove(0);
                    assert(children_view(self.children@) =~= before.children.drop_first());
                    match child {
                        LineChild::Span(s) => {
                            let chars = chars_of(s.text.as_str());
                            self.wip = Some(SpanIter { chars, pos: 0, speed: s.properties.speed });
                            assert(cues_view(cues@) + seq![] =~= cues_view(cues@));
                            return false;
                        },
                        LineChild::Instruction(Instruction::Play { sound }) => {
                            cues.push(Cue::Sound(sound));
                            assert(cues_view(cues@) =~= cues_view(before_cues) + seq![
                                CueV::Sound(before.children[0]->Play_0)]);
                            assert(cues_view(cues@) + reveal_step(self@, ticks).2 =~= cues_view(
                                before_cues) + (seq![CueV::Sound(before.children[0]->Play_0)]
                                + reveal_step(self@, ticks).2));
                        },
                    }
                }
            },
        }
    }
}

/// What the automaton is doing.
pub enum DirectiveV {
    /// Waiting for the player to confirm.
    Await,
    /// Revealing a line.
    OutputLine(OutputLineV),
    /// Idle: the next update pulls the next event.
    Idle,
}

/// The mathematical state of a `DialogueSystem`: the events not pulled yet,
/// the line buffer, the directive and the chapter's voice.
pub struct DialogueV {
    pub pending: Seq<ChExprV>,
    pub lines: Seq<Option<Seq<DialogueSpanV>>>,
    pub directive: DirectiveV,
    pub voice: Seq<char>,
}

/// The number of slots of the line buffer.
pub const LINE_SLOTS: usize = 4;

/// The state in which playback of `c` starts.
pub open spec fn initial(c: crate::ast::ChapterV) -> DialogueV {
    DialogueV {
        pending: c.content,
        lines: Seq::new(LINE_SLOTS as nat, |i: int| None::<Seq<DialogueSpanV>>),
        directive: DirectiveV::Idle,
        voice: c.voice,
    }
}

/// Whether an update from `s` would pull an event that is not there.
pub open spec fn exhausted(s: DialogueV) -> bool {
    s.directive is Idle && s.pending.len() == 0
}

/// One update of the automaton at tick `ticks`, with `confirm` the state of
/// the confirm input: the state after it and the cues it sends.
///
/// Awaiting, it leaves as soon as it sees `confirm` set. Idle, it pulls the
/// next event: an await starts waiting, a play instruction sends its sound,
/// a line takes a new empty slot and starts being revealed. Revealing, it
/// takes one reveal step and writes the line as shown into the last slot;
/// once the line is complete it is idle again.
pub open spec fn step(s: DialogueV, ticks: u64, confirm: bool) -> (DialogueV, Seq<CueV>) {
    match s.directive {
        DirectiveV::Await => {
            if confirm {
                (DialogueV { directive: DirectiveV::Idle, ..s }, seq![])
            } else {
                (s, seq![])
            }
        },
        DirectiveV::Idle => {
            if s.pending.len() == 0 {
                (s, seq![])
            } else {
                let rest = DialogueV { pending: s.pending.drop_first(), ..s };
                match s.pending[0] {
                    ChExprV::Await => (DialogueV { directive: DirectiveV::Await, ..rest }, seq![]),
                    ChExprV::Play(sound) => (rest, seq![CueV::Sound(sound)]),
                    ChExprV::Line(children) => (
                        DialogueV {
                            lines: pushed(s.lines, seq![]),
                            directive: DirectiveV::OutputLine(
                                OutputLineV { children, out: seq![], next_update: 0, wip: None },
                            ),
                            ..rest
                        },
                        seq![],
                    ),
                }
            }
        },
        DirectiveV::OutputLine(o) => {
            let r = reveal_step(o, ticks);
            (
                DialogueV {
                    lines: with_last(s.lines, r.0.out),
                    directive: if r.1 {
                        DirectiveV::Idle
                    } else {
                        DirectiveV::OutputLine(r.0)
                    },
                    ..s
                },
                r.2,
            )
        },
    }
}

enum Directive {
    Await,
    OutputLine(OutputLine),
    Idle,
}

impl View for Directive {
    type V = DirectiveV;

    closed spec fn view(&self) -> DirectiveV {
        match self {
            Directive::Await => DirectiveV::Await,
            Directive::OutputLine(o) => DirectiveV::OutputLine(o@),
            Directive::Idle => DirectiveV::Idle,
        }
    }
}

/// Plays a chapter: reveals its lines over ticks into a scrolling buffer.
pub struct DialogueSystem {
    pending: Vec<ChExpr>,
    linebuf: LineBuffer,
    directive: Directive,
    voice: String,
}

impl View for DialogueSystem {
    type V = DialogueV;

    closed spec fn view(&self) -> DialogueV {
        DialogueV {
            pending: exprs_view(self.pending@),
            lines: self.linebuf@,
            directive: self.directive@,
            voice: self.voice@,
        }
    }
}

/// A copy of `v`.
fn copy_chars(v: &Vec<char>) -> (r: Vec<char>)
    ensures
        r@ == v@,
{
    let mut r: Vec<char> = Vec::new();
    let mut i: usize = 0;
    while i < v.len()
        invariant
            i <= v@.len(),
            r@ == v@.take(i as int),
        decreases v@.len() - i,
    {
        r.push(v[i]);
        assert(r@ =~= v@.take(i as int + 1));
        i = i + 1;
    }
    assert(v@.take(i as int) =~= v@);
    r
}

/// A copy of `l`.
fn copy_line(l: &DialogueLine) -> (r: DialogueLine)
    ensures
        r@ == l@,
{
    let mut content: Vec<DialogueSpan> = Vec::new();
    let mut i: usize = 0;
    while i < l.content.len()
        invariant
            i <= l.content@.len(),
            content@.len() == i,
            forall|j: int| 0 <= j < i ==> content@[j]@ == l.content@[j]@,
        decreases l.content@.len() - i,
    {
        let span = match &l.content[i] {
            DialogueSpan::Text(t) => DialogueSpan::Text(copy_chars(t)),
            DialogueSpan::Instruction(Instruction::Play { sound }) => DialogueSpan::Instruction(
                Instruction::Play { sound: sound.clone() },
            ),
        };
        assert(span@ == l.content@[i as int]@);
        content.push(span);
        i = i + 1;
    }
    let r = DialogueLine { content };
    assert(r@ =~= l@);
    r
}

impl DialogueSystem {
    /// Starts playing `chapter` from its first event, with an empty buffer
    /// of four slots.
    pub fn init(chapter: Chapter) -> (r: Self)
        ensures
            r@ == initial(chapter@),
    {
        let linebuf = LineBuffer::new(LINE_SLOTS);
        Self { pending: chapter.content, linebuf, directive: Directive::Idle, voice: chapter.voice }
    }

    /// Whether the next update would pull an event past the end of the
    /// chapter.
    pub fn is_exhausted(&self) -> (r: bool)
        ensures
            r == exhausted(self@),
    {
        match self.directive {
            Directive::Idle => self.pending.len() == 0,
            _ => false,
        }
    }

    /// Advances the automaton by one update at tick `ticks`, with `confirm`
    /// the state of the confirm input, and returns the cues to send.
    ///
    /// `confirm` is read as a level: a pause ends at the first update that
    /// sees it set, however long it has been set. A caller that wants one
    /// pause to end per key press passes the press itself, not the key state.
    pub fn update(&mut self, ticks: u64, confirm: bool) -> (cues: Vec<Cue>)
        requires
            !exhausted(old(self)@),
        ensures
            (final(self)@, cues_view(cues@)) == step(old(self)@, ticks, confirm),
    {
        let mut cues: Vec<Cue> = Vec::new();
        let mut directive = Directive::Idle;
        core::mem::swap(&mut self.directive, &mut directive);
        match directive {
            Directive::Await => {
                if !confirm {
                    self.directive = Directive::Await;
                }
                assert(cues_view(cues@) =~= seq![]);
            },
            Directive::OutputLine(mut line) => {
                let ghost before = line@;
                let done = line.advance(ticks, &mut cues);
                self.linebuf.replace_last(copy_line(&line.out));
                if !done {
                    self.directive = Directive::OutputLine(line);
                }
                assert(cues_view(cues@) =~= seq![] + reveal_step(before, ticks).2);
            },
            Directive::Idle => {
                self.next_directive(&mut cues);
            },
        }
        cues
    }

    /// Pulls the next event of the chapter.
    fn next_directive(&mut self, cues: &mut Vec<Cue>)
        requires
            old(self).directive is Idle,
            old(self).pending@.len() > 0,
            old(cues)@.len() == 0,
        ensures
            (final(self)@, cues_view(final(cues)@)) == step(old(self)@, 0, false),
    {
        let ghost old_pending = self.pending@;
        let e = self.pending.remove(0);
        assert(exprs_view(self.pending@) =~= exprs_view(old_pending).drop_first());
        match e {
            ChExpr::Action(Action::Await) => {
                self.directive = Directive::Await;
            },
            ChExpr::Instruction(Instruction::Play { sound }) => {
                cues.push(Cue::Sound(sound));
            },
            ChExpr::Line { content } => {
                let fresh = DialogueLine { content: Vec::new() };
                assert(fresh@ =~= seq![]);
                self.linebuf.push(fresh);
                self.directive = Directive::OutputLine(
                    OutputLine {
                        children: content,
                        out: DialogueLine { content: Vec::new() },
                        next_update: 0,
                        wip: None,
                    },
                );
                assert(self.linebuf@ =~= pushed(old(self)@.lines, seq![]));
            },
        }
        assert(cues_view(cues@) =~= step(old(self)@, 0, false).1);
    }

    /// The line buffer.
    pub fn lines(&self) -> (r: &LineBuffer)
        ensures
            r@ == self@.lines,
    {
        &self.linebuf
    }

    /// The voice of the chapter being played.
    pub fn voice(&self) -> (r: &String)
        ensures
            r@ == self@.voice,
    {
        &self.voice
    }

    /// Whether the automaton is waiting for the player to confirm.
    pub fn is_awaiting(&self) -> (r: bool)
        ensures
            r == (self@.directive is Await),
    {
        match self.directive {
            Directive::Await => true,
            _ => false,
        }
    }

    /// Whether the automaton is idle.
    pub fn is_idle(&self) -> (r: bool)
        ensures
            r == (self@.directive is Idle),
    {
        match self.directive {
            Directive::Idle => true,
            _ => false,
        }
    }

    /// The number of events not pulled yet.
    pub fn pending_len(&self) -> (r: usize)
        ensures
            r == self@.pending.len(),
    {
        self.pending.len()
    }
}

/// Where the first span of a line starts, in pixels from the left.
pub const LEFT_MARGIN: u64 = 12;

/// Where the first slot is drawn, in pixels from the top.
pub const TOP_MARGIN: u64 = 226;

/// The height of a slot, in pixels.
pub const LINE_HEIGHT: u64 = 12;

/// The width of a character, in pixels.
pub const CHAR_WIDTH: u64 = 8;

/// A text to draw at a position, in pixels.
#[derive(Debug, Clone, PartialEq, Eq)]
pub struct TextDraw {
    pub x: u64,
    pub y: u64,
    pub text: Vec<char>,
}

/// The mathematical value of a `TextDraw`.
pub struct TextDrawV {
    pub x: u64,
    pub y: u64,
    pub text: Seq<char>,
}

impl View for TextDraw {
    type V = TextDrawV;

    open spec fn view(&self) -> TextDrawV {
        TextDrawV { x: self.x, y: self.y, text: self.text@ }
    }
}

/// The views of a sequence of draws.
pub open spec fn draws_view(v: Seq<TextDraw>) -> Seq<TextDrawV> {
    v.map_values(|d: TextDraw| d@)
}

/// `v` as a pixel coordinate, held at the largest one.
pub open spec fn clamp_px(v: int) -> u64 {
    if v > u64::MAX {
        u64::MAX
    } else {
        v as u64
    }
}

/// The number of characters in the text spans of `spans`.
pub open spec fn text_width(spans: Seq<DialogueSpanV>) -> int
    decreases spans.len(),
{
    if spans.len() == 0 {
        0
    } else {
        text_width(spans.drop_last()) + match spans.last() {
            DialogueSpanV::Text(t) => t.len() as int,
            DialogueSpanV::Play(_) => 0,
        }
    }
}

/// The draws of one line at height `y`: its text spans left to right, each
/// starting where the characters before it end; instructions are not drawn.
pub open spec fn line_draws(spans: Seq<DialogueSpanV>, y: u64) -> Seq<TextDrawV>
    decreases spans.len(),
{
    if spans.len() == 0 {
        seq![]
    } else {
        let before = spans.drop_last();
        line_draws(before, y) + match spans.last() {
            DialogueSpanV::Text(t) => seq![
                TextDrawV {
                    x: clamp_px(LEFT_MARGIN + CHAR_WIDTH * text_width(before)),
                    y,
                    text: t,
                },
            ],
            DialogueSpanV::Play(_) => seq![],
        }
    }
}

/// The height at which slot `idx` is drawn.
pub open spec fn slot_y(idx: int) -> u64 {
    clamp_px(TOP_MARGIN + LINE_HEIGHT * idx)
}

/// The draws of the filled slots of a buffer, oldest slot first.
pub open spec fn buffer_draws(slots: Seq<Option<Seq<DialogueSpanV>>>) -> Seq<TextDrawV>
    decreases slots.len(),
{
    if slots.len() == 0 {
        seq![]
    } else {
        let before = slots.drop_last();
        buffer_draws(before) + match slots.last() {
            Some(l) => line_draws(l, slot_y(before.len() as int)),
            None => seq![],
        }
    }
}

/// `a + b` as a pixel coordinate, held at the largest one.
fn add_px(a: u64, b: u64) -> (r: u64)
    ensures
        r == clamp_px(a + b),
{
    a.saturating_add(b)
}

/// `k * n` as a pixel coordinate, held at the largest one.
fn mul_px(k: u64, n: u64) -> (r: u64)
    requires
        k > 0,
    ensures
        r == clamp_px(k * n),
{
    match k.checked_mul(n) {
        Some(v) => v,
        None => u64::MAX,
    }
}

proof fn lemma_clamp_shift(a: int, b: int, c: int)
    requires
        a >= 0,
        b >= 0,
        c >= 0,
    ensures
        clamp_px(clamp_px(a + b) + clamp_px(c)) == clamp_px(a + b + c),
{
}

proof fn lemma_clamp_scale(k: int, w: int, n: int)
    requires
        k >= 0,
        w >= 0,
        n >= 0,
    ensures
        k * (w + n) == k * w + k * n,
        k * w >= 0,
        k * n >= 0,
{
    vstd::arithmetic::mul::lemma_mul_is_distributive_add(k, w, n);
    vstd::arithmetic::mul::lemma_mul_nonnegative(k, w);
    vstd::arithmetic::mul::lemma_mul_nonnegative(k, n);
}

/// The draws of `line` at height `y`, appended to `out`.
fn draw_line(line: &DialogueLine, y: u64, out: &mut Vec<TextDraw>)
    ensures
        draws_view(final(out)@) == draws_view(old(out)@) + line_draws(line@, y),
{
    let mut x: u64 = LEFT_MARGIN;
    let mut i: usize = 0;
    while i < line.content.len()
        invariant
            i <= line.content@.len(),
            x == clamp_px(LEFT_MARGIN + CHAR_WIDTH * text_width(line@.take(i as int))),
            draws_view(out@) == draws_view(old(out)@) + line_draws(line@.take(i as int), y),
        decreases line.content@.len() - i,
    {
        let ghost pre = line@.take(i as int);
        assert(line@.take(i as int + 1).drop_last() =~= pre);
        match &line.content[i] {
            DialogueSpan::Text(t) => {
                let ghost old_out = out@;
                out.push(TextDraw { x, y, text: copy_chars(t) });
                assert(draws_view(out@) =~= draws_view(old_out) + seq![
                    TextDrawV { x, y, text: t@ },
                ]);
                proof {
                    assert(text_width(pre) >= 0) by {
                        lemma_text_width_nonneg(pre);
                    }
                    lemma_clamp_scale(CHAR_WIDTH as int, text_width(pre), t@.len() as int);
                    lemma_clamp_shift(
                        LEFT_MARGIN as int,
                        CHAR_WIDTH * text_width(pre),
                        CHAR_WIDTH * t@.len(),
                    );
                }
                x = add_px(x, mul_px(CHAR_WIDTH, t.len() as u64));
            },
            DialogueSpan::Instruction(_) => {
            },
        }
        i = i + 1;
    }
    assert(line@.take(i as int) =~= line@);
}

proof fn lemma_text_width_nonneg(spans: Seq<DialogueSpanV>)
    ensures
        text_width(spans) >= 0,
    decreases spans.len(),
{
    if spans.len() > 0 {
        lemma_text_width_nonneg(spans.drop_last());
    }
}

impl LineBuffer {
    /// The texts to draw for the filled slots, oldest slot at the top.
    pub fn draw(&self) -> (r: Vec<TextDraw>)
        ensures
            draws_view(r@) == buffer_draws(self@),
    {
        let slots = self.lines();
        let mut r: Vec<TextDraw> = Vec::new();
        let mut idx: usize = 0;
        while idx < slots.len()
            invariant
                idx <= slots@.len(),
                slots@.map_values(|s: Option<DialogueLine>| slot_view(s)) == self@,
                draws_view(r@) == buffer_draws(self@.take(idx as int)),
            decreases slots@.len() - idx,
        {
            assert(self@.take(idx as int + 1).drop_last() =~= self@.take(idx as int));
            match &slots[idx] {
                Some(line) => {
                    proof {
                        vstd::arithmetic::mul::lemma_mul_nonnegative(LINE_HEIGHT as int, idx as int);
                    }
                    let y = add_px(TOP_MARGIN, mul_px(LINE_HEIGHT, idx as u64));
                    draw_line(line, y, &mut r);
                },
                None => {
                    assert(draws_view(r@) =~= draws_view(r@) + seq![]);
                },
            }
            idx = idx + 1;
        }
        assert(self@.take(idx as int) =~= self@);
        r
    }
}

impl DialogueSystem {
    /// The texts to draw for the filled slots of the line buffer, oldest
    /// slot at the top.
    pub fn draw(&self) -> (r: Vec<TextDraw>)
        ensures
            draws_view(r@) == buffer_draws(self@.lines),
    {
        self.linebuf.draw()
    }
}

/// While the automaton awaits confirmation, an update that does not see the
/// confirm input set changes nothing and sends nothing; the first update that
/// sees it set makes the automaton idle and changes nothing else; and the
/// update after that pulls the next event of the chapter.
pub proof fn lemma_await_gating(s: DialogueV, t1: u64, t2: u64, confirm: bool)
    requires
        s.directive is Await,
    ensures
        step(s, t1, false) == (s, Seq::<CueV>::empty()),
        step(s, t1, true) == (DialogueV { directive: DirectiveV::Idle, ..s }, Seq::<CueV>::empty()),
        s.pending.len() > 0 ==> step(step(s, t1, true).0, t2, confirm).0.pending
            == s.pending.drop_first(),
{
}

/// Revealing a character that is not a space, and that no space follows in
/// its span, schedules the next reveal `2 * (6 - speed)` ticks later for a
/// speed below 6, and one tick later otherwise; it sends a blip exactly when
/// the character is not whitespace.
pub proof fn lemma_reveal_timing(o: OutputLineV, ticks: u64)
    requires
        ticks >= o.next_update,
        o.wip is Some,
        0 <= o.wip->0.pos < o.wip->0.chars.len(),
        o.wip->0.chars[o.wip->0.pos] != ' ',
        o.wip->0.pos + 1 < o.wip->0.chars.len() ==> o.wip->0.chars[o.wip->0.pos + 1] != ' ',
        ticks + 12 <= u64::MAX,
    ensures
        reveal_step(o, ticks).0.next_update == ticks + (if o.wip->0.speed < 6 {
            2 * (6 - o.wip->0.speed)
        } else {
            1
        }),
        reveal_step(o, ticks).0.out == append_char(o.out, o.wip->0.chars[o.wip->0.pos]),
        reveal_step(o, ticks).2 == if white_space(o.wip->0.chars[o.wip->0.pos]) {
            Seq::<CueV>::empty()
        } else {
            seq![CueV::Blip]
        },
{
}

/// A space never waits on the per-character delay of its span: whatever the
/// span's speed, the reveal after a character that a space follows, and the
/// reveal after a space, come two ticks later.
pub proof fn lemma_space_fast_path(o: OutputLineV, ticks: u64)
    requires
        ticks >= o.next_update,
        o.wip is Some,
        0 <= o.wip->0.pos < o.wip->0.chars.len(),
        o.wip->0.chars[o.wip->0.pos] == ' ' || (o.wip->0.pos + 1 < o.wip->0.chars.len()
            && o.wip->0.chars[o.wip->0.pos + 1] == ' '),
        ticks + 2 <= u64::MAX,
    ensures
        reveal_step(o, ticks).0.next_update == ticks + 2,
{
}

} // verus!
