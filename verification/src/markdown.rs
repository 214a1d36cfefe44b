//! A readme, rendered for the terminal: headings, paragraphs, quotes,
//! code, lists, emphasis and links, as styled lines.
//!
//! `pulldown_cmark` reads the Markdown into events; the renderer here
//! turns a sequence of events into lines, one event at a time.

use vstd::prelude::*;
use crate::look::{Look, Piece, PieceV, Tone, fg, fg_of, lines_view, lit, owned, pieces_view, plain, push_line, push_piece, repeat_char, strong, text_piece};
use crate::text::{append_chars, chars_of, decimal, decimal_of, split_chars, split_seq, string_of, views};
use pulldown_cmark::{Event, Tag, TagEnd};

verus! {

/// A Markdown event, as the renderer reads it.
#[derive(Debug, Clone)]
pub enum MdEvent {
    /// A heading of the given level (1 to 6) begins.
    StartHeading(u8),
    StartParagraph,
    StartBlockQuote,
    StartCodeBlock,
    /// A list begins: numbered from the given number, or bulleted.
    StartList(Option<u64>),
    StartItem,
    StartStrong,
    StartEmphasis,
    StartStrikethrough,
    /// A link to the given address begins.
    StartLink(String),
    EndHeading,
    EndParagraph,
    EndBlockQuote,
    EndCodeBlock,
    EndList,
    EndItem,
    EndStrong,
    EndEmphasis,
    EndStrikethrough,
    EndLink,
    Text(String),
    /// Inline code.
    Code(String),
    /// A soft or a hard line break.
    Break,
    /// A horizontal rule.
    Rule,
    /// Anything the renderer does not draw.
    Other,
}

/// A Markdown event as plain values: what [`MdEvent`] holds, its texts
/// as characters.
pub enum MdEventV {
    StartHeading(u8),
    StartParagraph,
    StartBlockQuote,
    StartCodeBlock,
    StartList(Option<u64>),
    StartItem,
    StartStrong,
    StartEmphasis,
    StartStrikethrough,
    StartLink(Seq<char>),
    EndHeading,
    EndParagraph,
    EndBlockQuote,
    EndCodeBlock,
    EndList,
    EndItem,
    EndStrong,
    EndEmphasis,
    EndStrikethrough,
    EndLink,
    Text(Seq<char>),
    Code(Seq<char>),
    Break,
    Rule,
    Other,
}

impl View for MdEvent {
    type V = MdEventV;

    open spec fn view(&self) -> MdEventV {
        match self {
            MdEvent::StartHeading(l) => MdEventV::StartHeading(*l),
            MdEvent::StartParagraph => MdEventV::StartParagraph,
            MdEvent::StartBlockQuote => MdEventV::StartBlockQuote,
            MdEvent::StartCodeBlock => MdEventV::StartCodeBlock,
            MdEvent::StartList(s) => MdEventV::StartList(*s),
            MdEvent::StartItem => MdEventV::StartItem,
            MdEvent::StartStrong => MdEventV::StartStrong,
            MdEvent::StartEmphasis => MdEventV::StartEmphasis,
            MdEvent::StartStrikethrough => MdEventV::StartStrikethrough,
            MdEvent::StartLink(u) => MdEventV::StartLink(u@),
            MdEvent::EndHeading => MdEventV::EndHeading,
            MdEvent::EndParagraph => MdEventV::EndParagraph,
            MdEvent::EndBlockQuote => MdEventV::EndBlockQuote,
            MdEvent::EndCodeBlock => MdEventV::EndCodeBlock,
            MdEvent::EndList => MdEventV::EndList,
            MdEvent::EndItem => MdEventV::EndItem,
            MdEvent::EndStrong => MdEventV::EndStrong,
            MdEvent::EndEmphasis => MdEventV::EndEmphasis,
            MdEvent::EndStrikethrough => MdEventV::EndStrikethrough,
            MdEvent::EndLink => MdEventV::EndLink,
            MdEvent::Text(t) => MdEventV::Text(t@),
            MdEvent::Code(t) => MdEventV::Code(t@),
            MdEvent::Break => MdEventV::Break,
            MdEvent::Rule => MdEventV::Rule,
            MdEvent::Other => MdEventV::Other,
        }
    }
}

/// The plain values of a sequence of events.
pub open spec fn events_view(evs: Seq<MdEvent>) -> Seq<MdEventV> {
    Seq::new(evs.len(), |k: int| evs[k]@)
}

/// The renderer's state as plain values.
pub struct MdState {
    pub out: Seq<Seq<PieceV>>,
    pub current: Seq<PieceV>,
    pub styles: Seq<Look>,
    pub lists: Seq<Option<u64>>,
    pub indent: u16,
    pub in_code: bool,
    pub needs_blank: bool,
    pub pending_link: Option<Seq<char>>,
}

/// Before the first event: nothing drawn, ivory text.
pub open spec fn md_initial() -> MdState {
    MdState {
        out: Seq::empty(),
        current: Seq::empty(),
        styles: seq![fg(Tone::Ivory)],
        lists: Seq::empty(),
        indent: 0,
        in_code: false,
        needs_blank: false,
        pending_link: None,
    }
}

/// The style text is drawn in: the innermost one open (ivory when an
/// end came without its start, which the parser never emits).
pub open spec fn cur_style(st: MdState) -> Look {
    if st.styles.len() > 0 {
        st.styles.last()
    } else {
        fg(Tone::Ivory)
    }
}

/// The line being built, finished and added when it has anything in it.
pub open spec fn flushed(st: MdState) -> MdState {
    if st.current.len() > 0 {
        MdState { out: st.out.push(st.current), current: Seq::empty(), ..st }
    } else {
        st
    }
}

/// A blank line, when the last block asked for one.
pub open spec fn blanked(st: MdState) -> MdState {
    if st.needs_blank {
        MdState { out: st.out.push(Seq::empty()), needs_blank: false, ..st }
    } else {
        st
    }
}

pub open spec fn end_block(st: MdState) -> MdState {
    MdState { needs_blank: true, ..flushed(st) }
}

pub open spec fn spaces(n: nat) -> Seq<char> {
    Seq::new(n, |i: int| ' ')
}

/// Two spaces per level of list, at the start of a line inside one.
pub open spec fn indented(st: MdState) -> MdState {
    if st.indent > 0 && st.current.len() == 0 {
        MdState { current: st.current.push((spaces(2 * st.indent as nat), plain())), ..st }
    } else {
        st
    }
}

pub open spec fn with_piece(st: MdState, p: PieceV) -> MdState {
    MdState { current: st.current.push(p), ..st }
}

pub open spec fn pushed_style(st: MdState, l: Look) -> MdState {
    MdState { styles: st.styles.push(l), ..st }
}

pub open spec fn popped_style(st: MdState) -> MdState {
    MdState {
        styles: if st.styles.len() > 0 {
            st.styles.drop_last()
        } else {
            st.styles
        },
        ..st
    }
}

/// The look of a heading of a level: the first two bold in strong amber
/// (the first underlined too), the third bold amber, the rest amber.
pub open spec fn heading_look(level: u8) -> Look {
    if level == 1 {
        Look { tone: Tone::AmberStrong, bold: true, underlined: true, blink: false, italic: false, crossed: false }
    } else if level == 2 {
        strong(Tone::AmberStrong)
    } else if level == 3 {
        strong(Tone::Amber)
    } else {
        fg(Tone::Amber)
    }
}

pub open spec fn sat_inc16(x: u16) -> u16 {
    if x == u16::MAX {
        x
    } else {
        (x + 1) as u16
    }
}

pub open spec fn sat_dec16(x: u16) -> u16 {
    if x == 0 {
        0
    } else {
        (x - 1) as u16
    }
}

pub open spec fn sat_inc64(x: u64) -> u64 {
    if x == u64::MAX {
        x
    } else {
        (x + 1) as u64
    }
}

/// A list item begins: its indent, then its number (the list's next) or a bullet.
pub open spec fn item_started(st: MdState) -> MdState {
    let pad = spaces(2 * sat_dec16(st.indent) as nat);
    let numbered = st.lists.len() > 0 && st.lists.last() is Some;
    let bullet = if numbered {
        decimal_of(st.lists.last()->0 as nat) + ". "@
    } else {
        "• "@
    };
    let lists = if numbered {
        st.lists.update(st.lists.len() - 1, Some(sat_inc64(st.lists.last()->0)))
    } else {
        st.lists
    };
    MdState { current: st.current.push((pad, plain())).push((bullet, fg(Tone::AmberStrong))), lists: lists, ..st }
}

/// Text inside a code block: each of its lines indented four spaces, a
/// new line begun at each line break.
pub open spec fn code_text(st: MdState, ps: Seq<Seq<char>>, look: Look) -> MdState
    decreases ps.len(),
{
    if ps.len() == 0 {
        st
    } else {
        let s = code_text(st, ps.drop_last(), look);
        let s2 = if ps.len() > 1 {
            flushed(s)
        } else {
            s
        };
        with_piece(with_piece(s2, ("    "@, plain())), (ps.last(), look))
    }
}

/// Forty box-drawing dashes.
pub open spec fn rule_text() -> Seq<char> {
    Seq::new(40, |i: int| '─')
}

/// What one event does to the renderer.
pub open spec fn md_step(st: MdState, e: MdEventV) -> MdState {
    match e {
        MdEventV::StartHeading(level) => pushed_style(blanked(st), heading_look(level)),
        MdEventV::StartParagraph => indented(blanked(st)),
        MdEventV::StartBlockQuote => pushed_style(blanked(st), fg(Tone::Stone)),
        MdEventV::StartCodeBlock => pushed_style(blanked(MdState { in_code: true, ..st }), fg(Tone::StoneStrong)),
        MdEventV::StartList(start) => {
            let s1 = MdState { lists: st.lists.push(start), indent: sat_inc16(st.indent), ..st };
            if s1.indent == 1 {
                blanked(s1)
            } else {
                s1
            }
        },
        MdEventV::StartItem => item_started(st),
        MdEventV::StartStrong => pushed_style(st, Look { bold: true, ..cur_style(st) }),
        MdEventV::StartEmphasis => pushed_style(st, Look { italic: true, ..cur_style(st) }),
        MdEventV::StartStrikethrough => pushed_style(st, Look { crossed: true, ..cur_style(st) }),
        MdEventV::StartLink(url) => pushed_style(
            MdState { pending_link: Some(url), ..st },
            Look { tone: Tone::AmberStrong, underlined: true, ..cur_style(st) },
        ),
        MdEventV::EndHeading => end_block(popped_style(st)),
        MdEventV::EndParagraph => end_block(st),
        MdEventV::EndBlockQuote => MdState { needs_blank: true, ..popped_style(st) },
        MdEventV::EndCodeBlock => MdState { needs_blank: true, ..flushed(popped_style(MdState { in_code: false, ..st })) },
        MdEventV::EndList => {
            let s1 = MdState {
                lists: if st.lists.len() > 0 {
                    st.lists.drop_last()
                } else {
                    st.lists
                },
                indent: sat_dec16(st.indent),
                ..st
            };
            if s1.indent == 0 {
                MdState { needs_blank: true, ..s1 }
            } else {
                s1
            }
        },
        MdEventV::EndItem => flushed(st),
        MdEventV::EndStrong => popped_style(st),
        MdEventV::EndEmphasis => popped_style(st),
        MdEventV::EndStrikethrough => popped_style(st),
        MdEventV::EndLink => {
            let s1 = popped_style(st);
            match st.pending_link {
                Some(u) => MdState {
                    pending_link: None,
                    current: s1.current.push((" ("@ + u + ")"@, fg(Tone::Stone))),
                    ..s1
                },
                None => s1,
            }
        },
        MdEventV::Text(t) => if st.in_code {
            code_text(st, split_seq(t, '\n'), cur_style(st))
        } else {
            with_piece(st, (t, cur_style(st)))
        },
        MdEventV::Code(t) => with_piece(
            st,
            (t, Look { tone: Tone::AmberStrong, bold: false, underlined: false, blink: false, italic: true, crossed: false }),
        ),
        MdEventV::Break => if st.in_code {
            flushed(st)
        } else {
            with_piece(st, (" "@, plain()))
        },
        MdEventV::Rule => {
            let s1 = blanked(st);
            MdState { out: s1.out.push(seq![(rule_text(), fg(Tone::Stone))]), needs_blank: true, ..s1 }
        },
        MdEventV::Other => st,
    }
}

/// The renderer after a sequence of events.
pub open spec fn md_fold(st: MdState, evs: Seq<MdEventV>) -> MdState
    decreases evs.len(),
{
    if evs.len() == 0 {
        st
    } else {
        md_step(md_fold(st, evs.drop_last()), evs.last())
    }
}

/// The lines a sequence of events renders to: every event taken in
/// turn, then the last line finished.
pub open spec fn md_render_of(evs: Seq<MdEventV>) -> Seq<Seq<PieceV>> {
    flushed(md_fold(md_initial(), evs)).out
}

pub open spec fn is_start(e: MdEvent) -> bool {
    ||| e is StartHeading
    ||| e is StartParagraph
    ||| e is StartBlockQuote
    ||| e is StartCodeBlock
    ||| e is StartList
    ||| e is StartItem
    ||| e is StartStrong
    ||| e is StartEmphasis
    ||| e is StartStrikethrough
    ||| e is StartLink
}

pub open spec fn is_end(e: MdEvent) -> bool {
    ||| e is EndHeading
    ||| e is EndParagraph
    ||| e is EndBlockQuote
    ||| e is EndCodeBlock
    ||| e is EndList
    ||| e is EndItem
    ||| e is EndStrong
    ||| e is EndEmphasis
    ||| e is EndStrikethrough
    ||| e is EndLink
}

/// The renderer.
pub struct Renderer {
    pub out: Vec<Vec<Piece>>,
    pub current: Vec<Piece>,
    pub style_stack: Vec<Look>,
    pub list_stack: Vec<Option<u64>>,
    pub indent: u16,
    pub in_code_block: bool,
    pub needs_blank: bool,
    pub pending_link: Option<String>,
}

impl View for Renderer {
    type V = MdState;

    open spec fn view(&self) -> MdState {
        MdState {
            out: lines_view(self.out@),
            current: pieces_view(self.current@),
            styles: self.style_stack@,
            lists: self.list_stack@,
            indent: self.indent,
            in_code: self.in_code_block,
            needs_blank: self.needs_blank,
            pending_link: match self.pending_link {
                Some(s) => Some(s@),
                None => None,
            },
        }
    }
}

fn spaces_text(n: usize) -> (r: String)
    ensures
        r@ == spaces(n as nat),
{
    string_of(&repeat_char(' ', n))
}

impl Renderer {
    pub fn new() -> (r: Renderer)
        ensures
            r@ == md_initial(),
    {
        let mut styles: Vec<Look> = Vec::new();
        styles.push(fg_of(Tone::Ivory));
        let r = Renderer {
            out: Vec::new(),
            current: Vec::new(),
            style_stack: styles,
            list_stack: Vec::new(),
            indent: 0,
            in_code_block: false,
            needs_blank: false,
            pending_link: None,
        };
        assert(r@.out =~= Seq::<Seq<PieceV>>::empty());
        assert(r@.current =~= Seq::<PieceV>::empty());
        assert(r@.styles =~= seq![fg(Tone::Ivory)]);
        r
    }

    fn cur_style(&self) -> (l: Look)
        ensures
            l == cur_style(self@),
    {
        if self.style_stack.len() > 0 {
            self.style_stack[self.style_stack.len() - 1]
        } else {
            fg_of(Tone::Ivory)
        }
    }

    /// Finish the line being built, if it has anything in it.
    pub fn flush_line(&mut self)
        ensures
            final(self)@ == flushed(old(self)@),
    {
        if self.current.len() > 0 {
            let mut spans: Vec<Piece> = Vec::new();
            std::mem::swap(&mut spans, &mut self.current);
            push_line(&mut self.out, spans);
            assert(pieces_view(self.current@) =~= Seq::<PieceV>::empty());
        }
    }

    fn end_block(&mut self)
        ensures
            final(self)@ == end_block(old(self)@),
    {
        self.flush_line();
        self.needs_blank = true;
    }

    /// A blank line, when the last block asked for one.
    pub fn ensure_blank(&mut self)
        ensures
            final(self)@ == blanked(old(self)@),
    {
        if self.needs_blank {
            let empty: Vec<Piece> = Vec::new();
            assert(pieces_view(empty@) =~= Seq::<PieceV>::empty());
            push_line(&mut self.out, empty);
            self.needs_blank = false;
        }
    }

    fn push_indent(&mut self)
        ensures
            final(self)@ == indented(old(self)@),
    {
        if self.indent > 0 && self.current.len() == 0 {
            let n: usize = 2 * (self.indent as usize);
            push_piece(&mut self.current, owned(spaces_text(n), fg_of(Tone::Plain)));
        }
    }

    fn push_style(&mut self, l: Look)
        ensures
            final(self)@ == pushed_style(old(self)@, l),
    {
        self.style_stack.push(l);
    }

    fn pop_style(&mut self)
        ensures
            final(self)@ == popped_style(old(self)@),
    {
        if self.style_stack.len() > 0 {
            self.style_stack.pop();
        }
    }

    fn start_item(&mut self)
        ensures
            final(self)@ == item_started(old(self)@),
    {
        let pad = spaces_text(2 * (if self.indent == 0 {
            0
        } else {
            self.indent - 1
        }) as usize);
        let n = self.list_stack.len();
        let bullet = if n > 0 {
            match self.list_stack[n - 1] {
                Some(k) => {
                    let mut cs = decimal(k);
                    append_chars(&mut cs, &chars_of(". "));
                    let next = if k == u64::MAX {
                        k
                    } else {
                        k + 1
                    };
                    self.list_stack.set(n - 1, Some(next));
                    string_of(&cs)
                },
                None => string_of(&chars_of("• ")),
            }
        } else {
            string_of(&chars_of("• "))
        };
        push_piece(&mut self.current, owned(pad, fg_of(Tone::Plain)));
        push_piece(&mut self.current, owned(bullet, fg_of(Tone::AmberStrong)));
    }

    fn code_text(&mut self, t: &String, look: Look)
        requires
            old(self).in_code_block,
        ensures
            final(self)@ == code_text(old(self)@, split_seq(t@, '\n'), look),
    {
        let cs = chars_of(t.as_str());
        let ps = split_chars(&cs, '\n');
        let ghost all = split_seq(t@, '\n');
        let ghost start = self@;
        let mut i: usize = 0;
        assert(all.subrange(0, 0) =~= Seq::<Seq<char>>::empty());
        while i < ps.len()
            invariant
                views(ps@) == all,
                i <= ps@.len(),
                self@ == code_text(start, all.subrange(0, i as int), look),
            decreases ps.len() - i,
        {
            let ghost pre = all.subrange(0, i as int);
            let ghost next = all.subrange(0, i + 1);
            assert(next.drop_last() =~= pre);
            assert(next.last() == ps@[i as int]@);
            if i > 0 {
                self.flush_line();
            }
            push_piece(&mut self.current, lit("    ", fg_of(Tone::Plain)));
            push_piece(&mut self.current, text_piece(&ps[i], look));
            i = i + 1;
        }
        assert(all.subrange(0, ps@.len() as int) =~= all);
    }

    fn start(&mut self, e: &MdEvent)
        requires
            is_start(*e),
        ensures
            final(self)@ == md_step(old(self)@, e@),
    {
        match e {
            MdEvent::StartHeading(level) => {
                self.ensure_blank();
                let look = if *level == 1 {
                    Look {
                        tone: Tone::AmberStrong,
                        bold: true,
                        underlined: true,
                        blink: false,
                        italic: false,
                        crossed: false,
                    }
                } else if *level == 2 {
                    Look { tone: Tone::AmberStrong, bold: true, underlined: false, blink: false, italic: false, crossed: false }
                } else if *level == 3 {
                    Look { tone: Tone::Amber, bold: true, underlined: false, blink: false, italic: false, crossed: false }
                } else {
                    fg_of(Tone::Amber)
                };
                self.push_style(look);
            },
            MdEvent::StartParagraph => {
                self.ensure_blank();
                self.push_indent();
            },
            MdEvent::StartBlockQuote => {
                self.ensure_blank();
                self.push_style(fg_of(Tone::Stone));
            },
            MdEvent::StartCodeBlock => {
                self.in_code_block = true;
                self.ensure_blank();
                self.push_style(fg_of(Tone::StoneStrong));
            },
            MdEvent::StartList(start) => {
                self.list_stack.push(*start);
                if self.indent < u16::MAX {
                    self.indent = self.indent + 1;
                }
                if self.indent == 1 {
                    self.ensure_blank();
                }
            },
            MdEvent::StartItem => self.start_item(),
            MdEvent::StartStrong => {
                let c = self.cur_style();
                self.push_style(Look { bold: true, ..c });
            },
            MdEvent::StartEmphasis => {
                let c = self.cur_style();
                self.push_style(Look { italic: true, ..c });
            },
            MdEvent::StartStrikethrough => {
                let c = self.cur_style();
                self.push_style(Look { crossed: true, ..c });
            },
            MdEvent::StartLink(url) => {
                let c = self.cur_style();
                self.push_style(Look { tone: Tone::AmberStrong, underlined: true, ..c });
                self.pending_link = Some(url.clone());
            },
            _ => {},
        }
    }

    fn end(&mut self, e: &MdEvent)
        requires
            is_end(*e),
        ensures
            final(self)@ == md_step(old(self)@, e@),
    {
        match e {
            MdEvent::EndHeading => {
                self.pop_style();
                self.end_block();
            },
            MdEvent::EndParagraph => self.end_block(),
            MdEvent::EndBlockQuote => {
                self.pop_style();
                self.needs_blank = true;
            },
            MdEvent::EndCodeBlock => {
                self.in_code_block = false;
                self.pop_style();
                self.flush_line();
                self.needs_blank = true;
            },
            MdEvent::EndList => {
                if self.list_stack.len() > 0 {
                    self.list_stack.pop();
                }
                if self.indent > 0 {
                    self.indent = self.indent - 1;
                }
                if self.indent == 0 {
                    self.needs_blank = true;
                }
            },
            MdEvent::EndItem => self.flush_line(),
            MdEvent::EndStrong => self.pop_style(),
            MdEvent::EndEmphasis => self.pop_style(),
            MdEvent::EndStrikethrough => self.pop_style(),
            MdEvent::EndLink => {
                self.pop_style();
                match self.pending_link.take() {
                    Some(url) => {
                        let text = crate::tui::concat3(" (", url.as_str(), ")");
                        push_piece(&mut self.current, owned(text, fg_of(Tone::Stone)));
                    },
                    None => {},
                }
            },
            _ => {},
        }
    }

    /// Take in one event.
    pub fn handle(&mut self, e: &MdEvent)
        ensures
            final(self)@ == md_step(old(self)@, e@),
    {
        match e {
            MdEvent::Text(t) => {
                let look = self.cur_style();
                if self.in_code_block {
                    self.code_text(t, look);
                } else {
                    push_piece(&mut self.current, owned(t.clone(), look));
                }
            },
            MdEvent::Code(t) => {
                let look = Look {
                    tone: Tone::AmberStrong,
                    bold: false,
                    underlined: false,
                    blink: false,
                    italic: true,
                    crossed: false,
                };
                push_piece(&mut self.current, owned(t.clone(), look));
            },
            MdEvent::Break => {
                if self.in_code_block {
                    self.flush_line();
                } else {
                    push_piece(&mut self.current, lit(" ", fg_of(Tone::Plain)));
                }
            },
            MdEvent::Rule => {
                self.ensure_blank();
                let mut l: Vec<Piece> = Vec::new();
                push_piece(&mut l, text_piece(&repeat_char('─', 40), fg_of(Tone::Stone)));
                assert(pieces_view(l@) =~= seq![(rule_text(), fg(Tone::Stone))]);
                push_line(&mut self.out, l);
                self.needs_blank = true;
            },
            MdEvent::Other => {},
            MdEvent::EndHeading | MdEvent::EndParagraph | MdEvent::EndBlockQuote | MdEvent::EndCodeBlock
            | MdEvent::EndList | MdEvent::EndItem | MdEvent::EndStrong | MdEvent::EndEmphasis
            | MdEvent::EndStrikethrough | MdEvent::EndLink => self.end(e),
            _ => self.start(e),
        }
    }
}

/// The lines a sequence of Markdown events renders to.
pub fn render_events(events: &[MdEvent]) -> (r: Vec<Vec<Piece>>)
    ensures
        lines_view(r@) == md_render_of(events_view(events@)),
{
    let ghost ev = events_view(events@);
    let mut rd = Renderer::new();
    let mut i: usize = 0;
    assert(ev.subrange(0, 0) =~= Seq::<MdEventV>::empty());
    while i < events.len()
        invariant
            ev == events_view(events@),
            i <= events@.len(),
            rd@ == md_fold(md_initial(), ev.subrange(0, i as int)),
        decreases events.len() - i,
    {
        let ghost pre = ev.subrange(0, i as int);
        let ghost next = ev.subrange(0, i + 1);
        assert(next.drop_last() =~= pre);
        assert(next.last() == events@[i as int]@);
        rd.handle(&events[i]);
        i = i + 1;
    }
    assert(ev.subrange(0, events@.len() as int) =~= ev);
    rd.flush_line();
    rd.out
}

// ── reading Markdown ─────────────────────────────────────────────────

/// `pulldown_cmark`'s event, carried through as it is.
#[verifier::external_type_specification]
#[verifier::external_body]
pub struct ExParsedEvent<'a>(Event<'a>);

/// What `head_of` tells of an event: start or end of a tag (read by
/// `start_of` or `end_of`), text, code, a break, a rule, or other.
pub enum MdHead {
    Start,
    End,
    Text(String),
    Code(String),
    SoftBreak,
    HardBreak,
    Rule,
    Other,
}

/// The events `pulldown_cmark` reads from a text, as plain values. They
/// depend on the text alone; the CommonMark grammar they follow is the
/// parser's own and is not written out here.
pub uninterp spec fn markdown_events(src: Seq<char>) -> Seq<MdEventV>;

/// `pulldown_cmark::Parser::new(src)`, collected: the events of `src`
/// read as CommonMark without extensions, in order, each as `md_event`
/// reads it. Claimed: they are `markdown_events` of the text, that is,
/// the same text always gives the same events; nothing more.
#[verifier::external_body]
fn parse_markdown(src: &str) -> (r: Vec<MdEvent>)
    ensures
        events_view(r@) == markdown_events(src@),
{
    pulldown_cmark::Parser::new(src).map(|e| md_event(head_of(&e), &e)).collect()
}

/// The variant of a `pulldown_cmark::Event`, with the text it carries
/// when it is `Text` or `Code`, converted one for one. Nothing is
/// claimed: the event is opaque here.
#[verifier::external_body]
fn head_of(e: &Event) -> MdHead {
    match e {
        Event::Start(_) => MdHead::Start,
        Event::End(_) => MdHead::End,
        Event::Text(t) => MdHead::Text(t.to_string()),
        Event::Code(t) => MdHead::Code(t.to_string()),
        Event::SoftBreak => MdHead::SoftBreak,
        Event::HardBreak => MdHead::HardBreak,
        Event::Rule => MdHead::Rule,
        _ => MdHead::Other,
    }
}

/// The tag a `pulldown_cmark::Event::Start` opens, converted one for
/// one (the heading's level as its number, the list's first number, the
/// link's address); `Other` for any other tag or event. Claimed: the
/// result is a start of a tag or `Other`, and a heading's number is
/// `HeadingLevel`'s, 1 to 6.
#[verifier::external_body]
fn start_of(e: &Event) -> (r: MdEvent)
    ensures
        is_start(r) || r is Other,
        r matches MdEvent::StartHeading(l) ==> 1 <= l <= 6,
{
    match e {
        Event::Start(Tag::Heading { level, .. }) => MdEvent::StartHeading(*level as u8),
        Event::Start(Tag::Paragraph) => MdEvent::StartParagraph,
        Event::Start(Tag::BlockQuote(_)) => MdEvent::StartBlockQuote,
        Event::Start(Tag::CodeBlock(_)) => MdEvent::StartCodeBlock,
        Event::Start(Tag::List(first)) => MdEvent::StartList(*first),
        Event::Start(Tag::Item) => MdEvent::StartItem,
        Event::Start(Tag::Strong) => MdEvent::StartStrong,
        Event::Start(Tag::Emphasis) => MdEvent::StartEmphasis,
        Event::Start(Tag::Strikethrough) => MdEvent::StartStrikethrough,
        Event::Start(Tag::Link { dest_url, .. }) => MdEvent::StartLink(dest_url.to_string()),
        _ => MdEvent::Other,
    }
}

/// The tag a `pulldown_cmark::Event::End` closes, converted one for one;
/// `Other` for any other tag or event. Claimed: the result is an end of
/// a tag or `Other`.
#[verifier::external_body]
fn end_of(e: &Event) -> (r: MdEvent)
    ensures
        is_end(r) || r is Other,
{
    match e {
        Event::End(TagEnd::Heading(_)) => MdEvent::EndHeading,
        Event::End(TagEnd::Paragraph) => MdEvent::EndParagraph,
        Event::End(TagEnd::BlockQuote(_)) => MdEvent::EndBlockQuote,
        Event::End(TagEnd::CodeBlock) => MdEvent::EndCodeBlock,
        Event::End(TagEnd::List(_)) => MdEvent::EndList,
        Event::End(TagEnd::Item) => MdEvent::EndItem,
        Event::End(TagEnd::Strong) => MdEvent::EndStrong,
        Event::End(TagEnd::Emphasis) => MdEvent::EndEmphasis,
        Event::End(TagEnd::Strikethrough) => MdEvent::EndStrikethrough,
        Event::End(TagEnd::Link) => MdEvent::EndLink,
        _ => MdEvent::Other,
    }
}

/// One parsed event, as the renderer reads it, from what `head_of` told
/// of it: a start or an end of a tag is read by `start_of` or `end_of`;
/// text and inline code keep their text; a soft and a hard line break
/// are both a break; a rule is a rule; anything else is `Other`.
fn md_event(head: MdHead, e: &Event) -> (r: MdEvent)
    ensures
        head is Start ==> is_start(r) || r is Other,
        head is End ==> is_end(r) || r is Other,
        head matches MdHead::Text(t) ==> r@ == MdEventV::Text(t@),
        head matches MdHead::Code(t) ==> r@ == MdEventV::Code(t@),
        head is SoftBreak || head is HardBreak ==> r is Break,
        head is Rule ==> r is Rule,
        head is Other ==> r is Other,
{
    match head {
        MdHead::Start => start_of(e),
        MdHead::End => end_of(e),
        MdHead::Text(t) => MdEvent::Text(t),
        MdHead::Code(t) => MdEvent::Code(t),
        MdHead::SoftBreak => MdEvent::Break,
        MdHead::HardBreak => MdEvent::Break,
        MdHead::Rule => MdEvent::Rule,
        MdHead::Other => MdEvent::Other,
    }
}

/// A readme, rendered: the lines its Markdown events render to.
pub fn render(src: &str) -> (r: Vec<Vec<Piece>>)
    ensures
        lines_view(r@) == md_render_of(markdown_events(src@)),
{
    let events = parse_markdown(src);
    render_events(&events)
}

/// What the readme pane shows: that there is no readme; the readme
/// rendered; or the readme as it is written, every line in ivory.
pub fn readme_lines(content: &str, rendered: bool) -> (r: Vec<Vec<Piece>>)
    ensures
        content@.len() == 0 ==> lines_view(r@) == seq![seq![("no README found"@, fg(Tone::Stone))]],
        content@.len() > 0 && !rendered ==> lines_view(r@) == crate::look::raw_lines_of(content@),
        content@.len() > 0 && rendered ==> lines_view(r@) == md_render_of(markdown_events(content@)),
{
    if chars_of(content).len() == 0 {
        let mut l: Vec<Piece> = Vec::new();
        push_piece(&mut l, lit("no README found", fg_of(Tone::Stone)));
        assert(pieces_view(l@) =~= seq![("no README found"@, fg(Tone::Stone))]);
        let mut out: Vec<Vec<Piece>> = Vec::new();
        assert(lines_view(out@) =~= Seq::<Seq<PieceV>>::empty());
        push_line(&mut out, l);
        assert(lines_view(out@) =~= seq![seq![("no README found"@, fg(Tone::Stone))]]);
        return out;
    }
    if rendered {
        render(content)
    } else {
        crate::look::parse_markdown_raw(content)
    }
}

} // verus!
