//! How a paragraph's inlines are laid out as styled text: a sequence of runs, each with its
//! text, the colour role it is drawn in, its emphasis, strikethrough, code and formula marks,
//! and the link it belongs to.
use vstd::prelude::*;

use crate::document::model::{inline_view, inlines_view, opt_str, Inline, InlineV};
use crate::document::render::{math_text, math_text_of, MathDisplay};
use crate::text::push_char;

verus! {

/// The colour a run is drawn in: the colour given to the text, that of strong text, that of
/// links, or that of inline code.
#[derive(Debug, Clone, Copy, PartialEq, Eq, Structural)]
pub enum RunRole {
    Base,
    StrongText,
    Link,
    CodeText,
}

/// A piece of styled text: what it says, its colour role, whether it is italic, struck
/// through, inline code or a formula, and the destination of the link it belongs to.
#[derive(Debug)]
pub struct InlineRun {
    pub text: String,
    pub role: RunRole,
    pub italics: bool,
    pub strikethrough: bool,
    pub code: bool,
    pub math: bool,
    pub link: Option<String>,
}

pub ghost struct RunV {
    pub text: Seq<char>,
    pub role: RunRole,
    pub italics: bool,
    pub strikethrough: bool,
    pub code: bool,
    pub math: bool,
    pub link: Option<Seq<char>>,
}

pub open spec fn run_view(r: InlineRun) -> RunV {
    RunV {
        text: r.text@,
        role: r.role,
        italics: r.italics,
        strikethrough: r.strikethrough,
        code: r.code,
        math: r.math,
        link: opt_str(r.link),
    }
}

pub open spec fn inline_runs_view(s: Seq<InlineRun>) -> Seq<RunV> {
    s.map_values(|r: InlineRun| run_view(r))
}

/// A run of text in the styles in force: strong text takes the strong colour, else the role
/// in force.
pub open spec fn styled_run(
    text: Seq<char>,
    strong: bool,
    italics: bool,
    strikethrough: bool,
    role: RunRole,
    code: bool,
    link: Option<Seq<char>>,
) -> RunV {
    RunV {
        text,
        role: if strong { RunRole::StrongText } else { role },
        italics,
        strikethrough,
        code,
        math: false,
        link,
    }
}

/// The runs of inlines, one after another, in the styles in force.
pub open spec fn inline_runs_of(
    s: Seq<InlineV>,
    strong: bool,
    italics: bool,
    strikethrough: bool,
    role: RunRole,
    link: Option<Seq<char>>,
) -> Seq<RunV>
    decreases s,
{
    if s.len() == 0 {
        seq![]
    } else {
        inline_runs_of(s.drop_last(), strong, italics, strikethrough, role, link)
            + one_inline_runs(s.last(), strong, italics, strikethrough, role, link)
    }
}

/// The runs of one inline in the styles in force: emphasis makes its content italic, strong
/// text strong, strikethrough struck; inline code is code in the code colour; a link draws
/// its content in the link colour and marks it with its destination; an image shows its
/// alternative text in brackets after `!`; a formula shows its readable text, italic in the
/// strong colour; a soft break is a space and a hard break a newline.
pub open spec fn one_inline_runs(
    x: InlineV,
    strong: bool,
    italics: bool,
    strikethrough: bool,
    role: RunRole,
    link: Option<Seq<char>>,
) -> Seq<RunV>
    decreases x,
{
    match x {
        InlineV::Text(t) => seq![styled_run(t, strong, italics, strikethrough, role, false, link)],
        InlineV::Html(t) => seq![styled_run(t, strong, italics, strikethrough, role, false, link)],
        InlineV::Code(t) => seq![styled_run(t, strong, italics, strikethrough, RunRole::CodeText, true, link)],
        InlineV::Emphasis(c) => inline_runs_of(c, strong, true, strikethrough, role, link),
        InlineV::Strong(c) => inline_runs_of(c, true, italics, strikethrough, role, link),
        InlineV::Strikethrough(c) => inline_runs_of(c, strong, italics, true, role, link),
        InlineV::Link { destination, children, .. } => inline_runs_of(
            children,
            strong,
            italics,
            strikethrough,
            RunRole::Link,
            Some(destination),
        ),
        InlineV::Image { alt, .. } => seq![styled_run(seq!['!', '['], strong, italics, strikethrough, role, false, link)]
            + inline_runs_of(alt, strong, italics, strikethrough, role, link)
            + seq![styled_run(seq![']'], strong, italics, strikethrough, role, false, link)],
        InlineV::Math(e) => seq![RunV {
            text: math_text_of(e, false),
            role: RunRole::StrongText,
            italics: true,
            strikethrough: false,
            code: false,
            math: true,
            link,
        }],
        InlineV::SoftBreak => seq![styled_run(seq![' '], strong, italics, strikethrough, role, false, link)],
        InlineV::HardBreak => seq![styled_run(seq!['\n'], strong, italics, strikethrough, role, false, link)],
    }
}

fn copy_link(link: &Option<String>) -> (r: Option<String>)
    ensures
        opt_str(r) == opt_str(*link),
{
    match link {
        Some(l) => Some(l.clone()),
        None => None,
    }
}

fn text_of_chars(cs: &[char]) -> (s: String)
    ensures
        s@ == cs@,
{
    let mut s = String::new();
    let mut i: usize = 0;
    while i < cs.len()
        invariant
            i <= cs.len(),
            s@ == cs@.take(i as int),
        decreases cs.len() - i,
    {
        assert(cs@.take(i + 1) =~= cs@.take(i as int).push(cs@[i as int]));
        push_char(&mut s, cs[i]);
        i += 1;
    }
    assert(cs@.take(i as int) =~= cs@);
    s
}

fn push_run(out: &mut Vec<InlineRun>, run: InlineRun)
    ensures
        inline_runs_view(final(out)@) == inline_runs_view(old(out)@).push(run_view(run)),
{
    out.push(run);
    assert(inline_runs_view(out@) =~= inline_runs_view(old(out)@).push(run_view(run)));
}

fn push_styled(
    out: &mut Vec<InlineRun>,
    text: String,
    strong: bool,
    italics: bool,
    strikethrough: bool,
    role: RunRole,
    code: bool,
    link: &Option<String>,
)
    ensures
        inline_runs_view(final(out)@) == inline_runs_view(old(out)@).push(
            styled_run(text@, strong, italics, strikethrough, role, code, opt_str(*link)),
        ),
{
    let run = InlineRun {
        text,
        role: if strong { RunRole::StrongText } else { role },
        italics,
        strikethrough,
        code,
        math: false,
        link: copy_link(link),
    };
    push_run(out, run);
}

fn push_inline(
    inline: &Inline,
    strong: bool,
    italics: bool,
    strikethrough: bool,
    role: RunRole,
    link: &Option<String>,
    out: &mut Vec<InlineRun>,
)
    ensures
        inline_runs_view(final(out)@) == inline_runs_view(old(out)@) + one_inline_runs(
            inline_view(*inline),
            strong,
            italics,
            strikethrough,
            role,
            opt_str(*link),
        ),
    decreases *inline,
{
    let ghost start = inline_runs_view(out@);
    let ghost l = opt_str(*link);
    match inline {
        Inline::Text(value) => {
            push_styled(out, value.clone(), strong, italics, strikethrough, role, false, link);
        },
        Inline::Html(value) => {
            push_styled(out, value.clone(), strong, italics, strikethrough, role, false, link);
        },
        Inline::Code(value) => {
            push_styled(out, value.clone(), strong, italics, strikethrough, RunRole::CodeText, true, link);
        },
        Inline::Emphasis(children) => {
            assert(decreases_to!(*inline => children@));
            push_inline_runs(children.as_slice(), strong, true, strikethrough, role, link, out);
        },
        Inline::Strong(children) => {
            assert(decreases_to!(*inline => children@));
            push_inline_runs(children.as_slice(), true, italics, strikethrough, role, link, out);
        },
        Inline::Strikethrough(children) => {
            assert(decreases_to!(*inline => children@));
            push_inline_runs(children.as_slice(), strong, italics, true, role, link, out);
        },
        Inline::Link { destination, children, .. } => {
            assert(decreases_to!(*inline => children@));
            let inner = Some(destination.clone());
            push_inline_runs(children.as_slice(), strong, italics, strikethrough, RunRole::Link, &inner, out);
        },
        Inline::Image { alt, .. } => {
            assert(decreases_to!(*inline => alt@));
            let open = text_of_chars(&['!', '[']);
            assert(open@ =~= seq!['!', '[']);
            push_styled(out, open, strong, italics, strikethrough, role, false, link);
            push_inline_runs(alt.as_slice(), strong, italics, strikethrough, role, link, out);
            let close = text_of_chars(&[']']);
            assert(close@ =~= seq![']']);
            push_styled(out, close, strong, italics, strikethrough, role, false, link);
        },
        Inline::Math(expression) => {
            let text = math_text(expression.as_str(), MathDisplay::Inline);
            let run = InlineRun {
                text,
                role: RunRole::StrongText,
                italics: true,
                strikethrough: false,
                code: false,
                math: true,
                link: copy_link(link),
            };
            push_run(out, run);
        },
        Inline::SoftBreak => {
            let space = text_of_chars(&[' ']);
            assert(space@ =~= seq![' ']);
            push_styled(out, space, strong, italics, strikethrough, role, false, link);
        },
        Inline::HardBreak => {
            let newline = text_of_chars(&['\n']);
            assert(newline@ =~= seq!['\n']);
            push_styled(out, newline, strong, italics, strikethrough, role, false, link);
        },
    }
    assert(inline_runs_view(out@) =~= start + one_inline_runs(inline_view(*inline), strong, italics, strikethrough, role, l));
}

fn push_inline_runs(
    inlines: &[Inline],
    strong: bool,
    italics: bool,
    strikethrough: bool,
    role: RunRole,
    link: &Option<String>,
    out: &mut Vec<InlineRun>,
)
    ensures
        inline_runs_view(final(out)@) == inline_runs_view(old(out)@) + inline_runs_of(
            inlines_view(inlines@),
            strong,
            italics,
            strikethrough,
            role,
            opt_str(*link),
        ),
    decreases inlines@,
{
    let ghost start = inline_runs_view(out@);
    let ghost l = opt_str(*link);
    let mut i: usize = 0;
    while i < inlines.len()
        invariant
            i <= inlines.len(),
            l == opt_str(*link),
            inline_runs_view(out@) == start + inline_runs_of(
                inlines_view(inlines@.take(i as int)),
                strong,
                italics,
                strikethrough,
                role,
                l,
            ),
        decreases inlines.len() - i,
    {
        let ghost pre = inlines@.take(i as int);
        let ghost x = inline_view(inlines@[i as int]);
        assert(inlines@.take(i + 1) == pre.push(inlines@[i as int]));
        assert(pre.push(inlines@[i as int]).drop_last() == pre);
        assert(inlines_view(pre.push(inlines@[i as int])) == inlines_view(pre).push(x));
        assert(inlines_view(pre).push(x).drop_last() == inlines_view(pre));
        assert(decreases_to!(inlines@ => inlines@[i as int]));
        push_inline(&inlines[i], strong, italics, strikethrough, role, link, out);
        proof {
            let ps = inline_runs_of(inlines_view(pre), strong, italics, strikethrough, role, l);
            let xs = one_inline_runs(x, strong, italics, strikethrough, role, l);
            let ws = inline_runs_of(inlines_view(pre).push(x), strong, italics, strikethrough, role, l);
            assert(ws == ps + xs);
            assert(start + ps + xs =~= start + ws);
        }
        i += 1;
    }
    assert(inlines@.take(i as int) == inlines@);
}

/// The styled runs of a paragraph's inlines, strong or not, in the colour role given.
pub fn inline_runs(inlines: &[Inline], strong: bool, role: RunRole) -> (runs: Vec<InlineRun>)
    ensures
        inline_runs_view(runs@) == inline_runs_of(inlines_view(inlines@), strong, false, false, role, None),
{
    let mut runs: Vec<InlineRun> = Vec::new();
    let none: Option<String> = None;
    assert(inline_runs_view(runs@) =~= Seq::<RunV>::empty());
    push_inline_runs(inlines, strong, false, false, role, &none, &mut runs);
    assert(Seq::<RunV>::empty() + inline_runs_of(inlines_view(inlines@), strong, false, false, role, None)
        =~= inline_runs_of(inlines_view(inlines@), strong, false, false, role, None));
    runs
}

/// Whether inlines hold a link anywhere, nested spans and image descriptions included.
pub open spec fn holds_link(s: Seq<InlineV>) -> bool
    decreases s,
{
    s.len() > 0 && (holds_link(s.drop_last()) || inline_holds_link(s.last()))
}

/// Whether an inline is or holds a link.
pub open spec fn inline_holds_link(x: InlineV) -> bool
    decreases x,
{
    match x {
        InlineV::Link { .. } => true,
        InlineV::Emphasis(c) => holds_link(c),
        InlineV::Strong(c) => holds_link(c),
        InlineV::Strikethrough(c) => holds_link(c),
        InlineV::Image { alt, .. } => holds_link(alt),
        _ => false,
    }
}

/// Inside a link every run is clickable: whatever inlines are laid out while a link is in
/// force, each of their runs carries a destination.
pub proof fn lemma_runs_in_link_are_linked(
    s: Seq<InlineV>,
    strong: bool,
    italics: bool,
    strikethrough: bool,
    role: RunRole,
    link: Option<Seq<char>>,
)
    requires
        link is Some,
    ensures
        forall|k: int|
            0 <= k < inline_runs_of(s, strong, italics, strikethrough, role, link).len()
                ==> (#[trigger] inline_runs_of(s, strong, italics, strikethrough, role, link)[k]).link is Some,
    decreases s,
{
    if s.len() > 0 {
        lemma_runs_in_link_are_linked(s.drop_last(), strong, italics, strikethrough, role, link);
        lemma_inline_runs_in_link_are_linked(s.last(), strong, italics, strikethrough, role, link);
        let a = inline_runs_of(s.drop_last(), strong, italics, strikethrough, role, link);
        let b = one_inline_runs(s.last(), strong, italics, strikethrough, role, link);
        let r = inline_runs_of(s, strong, italics, strikethrough, role, link);
        assert(r == a + b);
        assert forall|k: int| 0 <= k < r.len() implies (#[trigger] r[k]).link is Some by {
            if k < a.len() {
                assert(r[k] == a[k]);
            } else {
                assert(r[k] == b[k - a.len()]);
            }
        }
    }
}

/// The runs of one inline laid out while a link is in force all carry a destination.
pub proof fn lemma_inline_runs_in_link_are_linked(
    x: InlineV,
    strong: bool,
    italics: bool,
    strikethrough: bool,
    role: RunRole,
    link: Option<Seq<char>>,
)
    requires
        link is Some,
    ensures
        forall|k: int|
            0 <= k < one_inline_runs(x, strong, italics, strikethrough, role, link).len()
                ==> (#[trigger] one_inline_runs(x, strong, italics, strikethrough, role, link)[k]).link is Some,
    decreases x,
{
    let r = one_inline_runs(x, strong, italics, strikethrough, role, link);
    match x {
        InlineV::Emphasis(c) => lemma_runs_in_link_are_linked(c, strong, true, strikethrough, role, link),
        InlineV::Strong(c) => lemma_runs_in_link_are_linked(c, true, italics, strikethrough, role, link),
        InlineV::Strikethrough(c) => lemma_runs_in_link_are_linked(c, strong, italics, true, role, link),
        InlineV::Link { destination, children, .. } => lemma_runs_in_link_are_linked(
            children,
            strong,
            italics,
            strikethrough,
            RunRole::Link,
            Some(destination),
        ),
        InlineV::Image { alt, .. } => {
            lemma_runs_in_link_are_linked(alt, strong, italics, strikethrough, role, link);
            let mid = inline_runs_of(alt, strong, italics, strikethrough, role, link);
            let open = seq![styled_run(seq!['!', '['], strong, italics, strikethrough, role, false, link)];
            let close = seq![styled_run(seq![']'], strong, italics, strikethrough, role, false, link)];
            assert(r == open + mid + close);
            assert forall|k: int| 0 <= k < r.len() implies (#[trigger] r[k]).link is Some by {
                if k == 0 {
                    assert(r[k] == open[0]);
                } else if k < 1 + mid.len() {
                    assert(r[k] == mid[k - 1]);
                } else {
                    assert(r[k] == close[k - 1 - mid.len()]);
                }
            }
        },
        _ => {},
    }
}

/// Outside nested links, every run of inlines carries exactly the link in force, whatever
/// inline (text, code, emphasis, a formula, a break, an image) produced it.
pub proof fn lemma_runs_carry_the_link(
    s: Seq<InlineV>,
    strong: bool,
    italics: bool,
    strikethrough: bool,
    role: RunRole,
    link: Option<Seq<char>>,
)
    requires
        !holds_link(s),
    ensures
        forall|k: int|
            0 <= k < inline_runs_of(s, strong, italics, strikethrough, role, link).len()
                ==> (#[trigger] inline_runs_of(s, strong, italics, strikethrough, role, link)[k]).link == link,
    decreases s,
{
    if s.len() > 0 {
        lemma_runs_carry_the_link(s.drop_last(), strong, italics, strikethrough, role, link);
        lemma_inline_runs_carry_the_link(s.last(), strong, italics, strikethrough, role, link);
        let a = inline_runs_of(s.drop_last(), strong, italics, strikethrough, role, link);
        let b = one_inline_runs(s.last(), strong, italics, strikethrough, role, link);
        let r = inline_runs_of(s, strong, italics, strikethrough, role, link);
        assert(r == a + b);
        assert forall|k: int| 0 <= k < r.len() implies (#[trigger] r[k]).link == link by {
            if k < a.len() {
                assert(r[k] == a[k]);
            } else {
                assert(r[k] == b[k - a.len()]);
            }
        }
    }
}

/// The runs of one inline that is not and holds no link carry the link in force.
pub proof fn lemma_inline_runs_carry_the_link(
    x: InlineV,
    strong: bool,
    italics: bool,
    strikethrough: bool,
    role: RunRole,
    link: Option<Seq<char>>,
)
    requires
        !inline_holds_link(x),
    ensures
        forall|k: int|
            0 <= k < one_inline_runs(x, strong, italics, strikethrough, role, link).len()
                ==> (#[trigger] one_inline_runs(x, strong, italics, strikethrough, role, link)[k]).link == link,
    decreases x,
{
    let r = one_inline_runs(x, strong, italics, strikethrough, role, link);
    match x {
        InlineV::Emphasis(c) => lemma_runs_carry_the_link(c, strong, true, strikethrough, role, link),
        InlineV::Strong(c) => lemma_runs_carry_the_link(c, true, italics, strikethrough, role, link),
        InlineV::Strikethrough(c) => lemma_runs_carry_the_link(c, strong, italics, true, role, link),
        InlineV::Image { alt, .. } => {
            lemma_runs_carry_the_link(alt, strong, italics, strikethrough, role, link);
            let mid = inline_runs_of(alt, strong, italics, strikethrough, role, link);
            let open = seq![styled_run(seq!['!', '['], strong, italics, strikethrough, role, false, link)];
            let close = seq![styled_run(seq![']'], strong, italics, strikethrough, role, false, link)];
            assert(r == open + mid + close);
            assert forall|k: int| 0 <= k < r.len() implies (#[trigger] r[k]).link == link by {
                if k == 0 {
                    assert(r[k] == open[0]);
                } else if k < 1 + mid.len() {
                    assert(r[k] == mid[k - 1]);
                } else {
                    assert(r[k] == close[k - 1 - mid.len()]);
                }
            }
        },
        _ => {},
    }
}

/// A link makes all of its content clickable: every run laid out for a link whose content
/// holds no further link carries the link's destination.
pub proof fn lemma_link_content_goes_to_its_destination(
    destination: Seq<char>,
    title: Option<Seq<char>>,
    children: Seq<InlineV>,
    strong: bool,
    italics: bool,
    strikethrough: bool,
    role: RunRole,
    link: Option<Seq<char>>,
)
    requires
        !holds_link(children),
    ensures
        forall|k: int|
            0 <= k < one_inline_runs(
                InlineV::Link { destination, title, children },
                strong,
                italics,
                strikethrough,
                role,
                link,
            ).len() ==> (#[trigger] one_inline_runs(
                InlineV::Link { destination, title, children },
                strong,
                italics,
                strikethrough,
                role,
                link,
            )[k]).link == Some(destination),
{
    lemma_runs_carry_the_link(children, strong, italics, strikethrough, RunRole::Link, Some(destination));
}

} // verus!
