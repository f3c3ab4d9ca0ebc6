//! Syntax highlighting of code blocks: syntect colours each line, and the coloured pieces
//! are gathered into runs of one colour that together spell the code.
use vstd::prelude::*;

use syntect::easy::HighlightLines;
use syntect::highlighting::{Theme, ThemeSet};
use syntect::parsing::{SyntaxReference, SyntaxSet};

use crate::text::{chars_of, eq_ignore_ascii_case_seq, push_char, push_chars};

verus! {

#[verifier::external_type_specification]
#[verifier::external_body]
pub struct ExSyntaxSet(syntect::parsing::SyntaxSet);

#[verifier::external_type_specification]
#[verifier::external_body]
pub struct ExSyntaxReference(syntect::parsing::SyntaxReference);

#[verifier::external_type_specification]
#[verifier::external_body]
pub struct ExThemeSet(syntect::highlighting::ThemeSet);

#[verifier::external_type_specification]
#[verifier::external_body]
pub struct ExTheme(syntect::highlighting::Theme);

#[verifier::external_type_specification]
#[verifier::external_body]
pub struct ExHighlightLines<'a>(syntect::easy::HighlightLines<'a>);

#[verifier::external_type_specification]
#[verifier::external_body]
pub struct ExSyntectError(syntect::Error);

/// A text colour.
#[derive(Debug, Clone, Copy, PartialEq, Eq, Structural)]
pub struct Rgb {
    pub r: u8,
    pub g: u8,
    pub b: u8,
}

/// Calls `SyntaxSet::load_defaults_newlines`, syntect's bundled syntaxes.
#[verifier::external_body]
fn default_syntaxes() -> SyntaxSet {
    SyntaxSet::load_defaults_newlines()
}

/// The names of the themes a theme set holds: the keys of its `themes` map.
pub uninterp spec fn theme_names(set: ThemeSet) -> Set<Seq<char>>;

/// Calls `ThemeSet::load_defaults`, syntect's bundled themes. Its documentation lists the
/// names they are kept under, which include the two the viewer uses.
#[verifier::external_body]
fn default_themes() -> (r: ThemeSet)
    ensures
        theme_names(r).contains(theme_name_for(true)),
        theme_names(r).contains(theme_name_for(false)),
{
    ThemeSet::load_defaults()
}

/// The syntaxes a set holds, in the order of `SyntaxSet::syntaxes`.
pub uninterp spec fn syntaxes_of(set: SyntaxSet) -> Seq<SyntaxReference>;

/// A syntax's `name` field.
pub uninterp spec fn syntax_name(syntax: SyntaxReference) -> Seq<char>;

/// A syntax's `file_extensions` field.
pub uninterp spec fn syntax_extensions(syntax: SyntaxReference) -> Seq<Seq<char>>;

/// The last position below `n` where `p` holds.
pub open spec fn last_where(n: nat, p: spec_fn(int) -> bool) -> Option<int>
    decreases n,
{
    if n == 0 {
        None
    } else if p(n - 1) {
        Some(n - 1)
    } else {
        last_where((n - 1) as nat, p)
    }
}

/// Whether one of a syntax's file extensions is `extension` up to ASCII case.
pub open spec fn has_extension(syntax: SyntaxReference, extension: Seq<char>) -> bool {
    exists|j: int|
        0 <= j < syntax_extensions(syntax).len() && eq_ignore_ascii_case_seq(
            #[trigger] syntax_extensions(syntax)[j],
            extension,
        )
}

/// The position of the syntax `find_syntax_by_extension` finds: the last one with that
/// extension.
pub open spec fn by_extension(set: SyntaxSet, extension: Seq<char>) -> Option<int> {
    let all = syntaxes_of(set);
    last_where(all.len(), |i: int| has_extension(all[i], extension))
}

/// The position of the syntax `find_syntax_by_token` finds: by extension, else the last
/// one whose name is the token up to ASCII case.
pub open spec fn by_token(set: SyntaxSet, token: Seq<char>) -> Option<int> {
    let all = syntaxes_of(set);
    match by_extension(set, token) {
        Some(i) => Some(i),
        None => last_where(all.len(), |i: int| eq_ignore_ascii_case_seq(syntax_name(all[i]), token)),
    }
}

/// The position of the syntax `find_syntax_by_name` finds: the last one of exactly that
/// name.
pub open spec fn by_name(set: SyntaxSet, name: Seq<char>) -> Option<int> {
    let all = syntaxes_of(set);
    last_where(all.len(), |i: int| syntax_name(all[i]) == name)
}

/// Whether a lookup's answer is the syntax at the position found, or none when none was.
pub open spec fn found_at(set: SyntaxSet, at: Option<int>, r: Option<&SyntaxReference>) -> bool {
    match at {
        Some(i) => r matches Some(s) && *s == syntaxes_of(set)[i],
        None => r is None,
    }
}

/// Calls `SyntaxSet::find_syntax_by_token`: the syntax with that file extension, or else
/// with that name ignoring ASCII case, the last such in the set.
#[verifier::external_body]
fn syntax_by_token<'a>(set: &'a SyntaxSet, token: &str) -> (r: Option<&'a SyntaxReference>)
    ensures
        found_at(*set, by_token(*set, token@), r),
        r matches Some(found) ==> syntaxes_of(*set).contains(*found),
{
    set.find_syntax_by_token(token)
}

/// Calls `SyntaxSet::find_syntax_by_extension`: the last syntax with that file extension,
/// ignoring ASCII case.
#[verifier::external_body]
fn syntax_by_extension<'a>(set: &'a SyntaxSet, extension: &str) -> (r: Option<&'a SyntaxReference>)
    ensures
        found_at(*set, by_extension(*set, extension@), r),
        r matches Some(found) ==> exists|j: int|
            0 <= j < syntax_extensions(*found).len() && eq_ignore_ascii_case_seq(
                #[trigger] syntax_extensions(*found)[j],
                extension@,
            ),
{
    set.find_syntax_by_extension(extension)
}

/// Calls `SyntaxSet::find_syntax_by_name`: the last syntax of exactly that name.
#[verifier::external_body]
fn syntax_named<'a>(set: &'a SyntaxSet, name: &str) -> (r: Option<&'a SyntaxReference>)
    ensures
        found_at(*set, by_name(*set, name@), r),
        r matches Some(found) ==> syntax_name(*found) == name@,
{
    set.find_syntax_by_name(name)
}

/// The theme a set keeps under a name.
pub uninterp spec fn theme_of(set: ThemeSet, name: Seq<char>) -> Theme;

/// Looks a theme up by name in `ThemeSet::themes`, a map: found exactly when the set holds a
/// theme of that name, and then it is the theme kept under that name.
#[verifier::external_body]
fn theme_named<'a>(set: &'a ThemeSet, name: &str) -> (r: Option<&'a Theme>)
    ensures
        r is Some <==> theme_names(*set).contains(name@),
        r matches Some(t) ==> *t == theme_of(*set, name@),
{
    set.themes.get(name)
}

/// The state `HighlightLines::new` starts in for a syntax and a theme.
pub uninterp spec fn start_state(syntax: SyntaxReference, theme: &Theme) -> HighlightLines;

/// Calls `HighlightLines::new`, a highlighter that starts at the top of a file.
#[verifier::external_body]
fn line_highlighter<'a>(syntax: &SyntaxReference, theme: &'a Theme) -> (r: HighlightLines<'a>)
    ensures
        r == start_state(*syntax, theme),
{
    HighlightLines::new(syntax, theme)
}

/// The text of a sequence of coloured pieces, one after another.
pub open spec fn pieces_text(pieces: Seq<(Rgb, String)>) -> Seq<char>
    decreases pieces.len(),
{
    if pieces.len() == 0 {
        seq![]
    } else {
        pieces_text(pieces.drop_last()) + pieces.last().1@
    }
}

/// What `HighlightLines::highlight_line` gives for a line in a highlighter state, its
/// pieces with their foreground colours or none when it fails, and the state it leaves.
pub uninterp spec fn highlight_step(
    state: HighlightLines,
    set: SyntaxSet,
    line: Seq<char>,
) -> (Option<Seq<(Rgb, Seq<char>)>>, HighlightLines);

/// Calls `HighlightLines::highlight_line` and keeps each piece's foreground colour. What it
/// gives and the state it leaves are named `highlight_step`; the pieces are slices of the
/// line, one after another, so together they spell it.
#[verifier::external_body]
fn highlight_line(highlighter: &mut HighlightLines, line: &str, set: &SyntaxSet) -> (r: Result<Vec<(Rgb, String)>, syntect::Error>)
    ensures
        r matches Ok(pieces) ==> pieces_text(pieces@) == line@,
        r matches Ok(pieces) ==> highlight_step(*old(highlighter), *set, line@).0 == Some(runs_view(pieces@)),
        r is Err ==> highlight_step(*old(highlighter), *set, line@).0 is None,
        *final(highlighter) == highlight_step(*old(highlighter), *set, line@).1,
{
    highlighter.highlight_line(line, set).map(|pieces| {
        pieces.into_iter().map(|(style, text)| (
            Rgb { r: style.foreground.r, g: style.foreground.g, b: style.foreground.b },
            text.to_owned(),
        )).collect()
    })
}

/// The scan of a text into the lines it has finished, each with its line break, and the
/// line in progress.
pub open spec fn line_scan(s: Seq<char>) -> (Seq<Seq<char>>, Seq<char>)
    decreases s.len(),
{
    if s.len() == 0 {
        (seq![], seq![])
    } else {
        let (done, cur) = line_scan(s.drop_last());
        if s.last() == '\n' {
            (done.push(cur.push('\n')), seq![])
        } else {
            (done, cur.push(s.last()))
        }
    }
}

/// The lines of a text with their line breaks, the last one without when the text does not
/// end with one: what syntect's `LinesWithEndings` yields.
pub open spec fn lines_with_endings_of(s: Seq<char>) -> Seq<Seq<char>> {
    let (done, cur) = line_scan(s);
    if cur.len() > 0 {
        done.push(cur)
    } else {
        done
    }
}

/// Lines one after another.
pub open spec fn lines_text(lines: Seq<Seq<char>>) -> Seq<char>
    decreases lines.len(),
{
    if lines.len() == 0 {
        seq![]
    } else {
        lines_text(lines.drop_last()) + lines.last()
    }
}

proof fn lemma_line_scan_spells(s: Seq<char>)
    ensures
        lines_text(line_scan(s).0) + line_scan(s).1 == s,
    decreases s.len(),
{
    if s.len() > 0 {
        lemma_line_scan_spells(s.drop_last());
        let (done, cur) = line_scan(s.drop_last());
        assert(s =~= s.drop_last().push(s.last()));
        assert(lines_text(done) + cur.push(s.last()) =~= (lines_text(done) + cur).push(s.last()));
        if s.last() == '\n' {
            assert(lines_text(done.push(cur.push('\n'))) == lines_text(done) + cur.push('\n')) by {
                assert(done.push(cur.push('\n')).drop_last() =~= done);
            }
            assert(lines_text(done) + cur.push('\n') + Seq::<char>::empty() =~= s);
        } else {
            assert(lines_text(done) + cur.push(s.last()) =~= s);
        }
    } else {
        assert(lines_text(Seq::<Seq<char>>::empty()) + Seq::<char>::empty() =~= s);
    }
}

/// The lines of a text, with their line breaks, spell the text.
pub proof fn lemma_lines_spell_text(s: Seq<char>)
    ensures
        lines_text(lines_with_endings_of(s)) == s,
{
    lemma_line_scan_spells(s);
    let (done, cur) = line_scan(s);
    if cur.len() > 0 {
        assert(done.push(cur).drop_last() =~= done);
    } else {
        assert(lines_text(done) + cur =~= lines_text(done));
    }
}

/// The lines of `code`, each with its line break.
pub fn lines_with_endings(code: &str) -> (lines: Vec<String>)
    ensures
        crate::text::strings_view(lines@) == lines_with_endings_of(code@),
{
    let chars = chars_of(code);
    let mut lines: Vec<String> = Vec::new();
    let mut cur = String::new();
    let mut cur_len: usize = 0;
    let mut i: usize = 0;
    while i < chars.len()
        invariant
            i <= chars.len(),
            chars@ == code@,
            cur_len == cur@.len(),
            cur_len <= i,
            (crate::text::strings_view(lines@), cur@) == line_scan(chars@.take(i as int)),
        decreases chars.len() - i,
    {
        assert(chars@.take(i + 1).drop_last() =~= chars@.take(i as int));
        let c = chars[i];
        push_char(&mut cur, c);
        if c == '\n' {
            let mut line = String::new();
            std::mem::swap(&mut line, &mut cur);
            proof {
                crate::text::lemma_strings_view_push(lines@, line);
            }
            lines.push(line);
            cur_len = 0;
        } else {
            cur_len += 1;
        }
        i += 1;
    }
    assert(chars@.take(i as int) =~= chars@);
    if cur_len > 0 {
        proof {
            crate::text::lemma_strings_view_push(lines@, cur);
        }
        lines.push(cur);
    }
    lines
}

/// Coloured runs as they are drawn: none empty, and no two neighbours of one colour.
pub open spec fn runs_wf(runs: Seq<(Rgb, String)>) -> bool {
    &&& forall|i: int| 0 <= i < runs.len() ==> (#[trigger] runs[i]).1@.len() > 0
    &&& forall|i: int| 0 < i < runs.len() ==> (#[trigger] runs[i]).0 != runs[i - 1].0
}

/// The runs after adding one coloured piece: an empty piece adds nothing; a piece of the
/// last run's colour extends that run; any other piece starts a run.
pub open spec fn add_piece(runs: Seq<(Rgb, Seq<char>)>, piece: (Rgb, Seq<char>)) -> Seq<(Rgb, Seq<char>)> {
    if piece.1.len() == 0 {
        runs
    } else if runs.len() > 0 && runs.last().0 == piece.0 {
        runs.update(runs.len() - 1, (piece.0, runs.last().1 + piece.1))
    } else {
        runs.push(piece)
    }
}

/// The runs after adding pieces one after another.
pub open spec fn add_pieces(runs: Seq<(Rgb, Seq<char>)>, pieces: Seq<(Rgb, Seq<char>)>) -> Seq<(Rgb, Seq<char>)>
    decreases pieces.len(),
{
    if pieces.len() == 0 {
        runs
    } else {
        add_piece(add_pieces(runs, pieces.drop_last()), pieces.last())
    }
}

pub open spec fn runs_view(runs: Seq<(Rgb, String)>) -> Seq<(Rgb, Seq<char>)> {
    runs.map_values(|r: (Rgb, String)| (r.0, r.1@))
}

/// Adds highlighted pieces to the runs: empty pieces are dropped, and a piece of the last
/// run's colour extends that run.
pub fn add_highlighted(runs: &mut Vec<(Rgb, String)>, pieces: Vec<(Rgb, String)>)
    ensures
        runs_view(final(runs)@) == add_pieces(runs_view(old(runs)@), runs_view(pieces@)),
        runs_wf(old(runs)@) ==> runs_wf(final(runs)@),
        pieces_text(final(runs)@) == pieces_text(old(runs)@) + pieces_text(pieces@),
{
    let ghost pv = runs_view(pieces@);
    let mut k: usize = 0;
    while k < pieces.len()
        invariant
            k <= pieces.len(),
            pv == runs_view(pieces@),
            runs_view(runs@) == add_pieces(runs_view(old(runs)@), pv.take(k as int)),
            runs_wf(old(runs)@) ==> runs_wf(runs@),
            pieces_text(runs@) == pieces_text(old(runs)@) + pieces_text(pieces@.take(k as int)),
        decreases pieces.len() - k,
    {
        assert(pv.take(k + 1).drop_last() =~= pv.take(k as int));
        assert(pieces@.take(k + 1).drop_last() =~= pieces@.take(k as int));
        let ghost before = runs@;
        let color = pieces[k].0;
        let text = chars_of(pieces[k].1.as_str());
        assert(pieces_text(pieces@.take(k + 1)) == pieces_text(pieces@.take(k as int)) + text@);
        if text.len() == 0 {
            assert(pieces_text(pieces@.take(k as int)) + text@ =~= pieces_text(pieces@.take(k as int)));
        }
        if text.len() > 0 {
            let n = runs.len();
            if n > 0 && runs[n - 1].0 == color {
                let mut last = (color, String::new());
                std::mem::swap(&mut last, &mut runs[n - 1]);
                let mut merged = last.1;
                push_chars(&mut merged, &text);
                let mut new_last = (color, merged);
                std::mem::swap(&mut new_last, &mut runs[n - 1]);
                assert(runs@ == before.update(n - 1, (color, runs@[n - 1].1)));
                assert(runs_view(runs@) =~= runs_view(before).update(n - 1, (color, runs_view(before).last().1 + pv[k as int].1)));
                assert(before.drop_last() =~= runs@.drop_last());
                assert(pieces_text(runs@) == pieces_text(before.drop_last()) + (before[n - 1].1@ + text@));
                assert(pieces_text(before) == pieces_text(before.drop_last()) + before[n - 1].1@);
                assert(pieces_text(old(runs)@) + pieces_text(pieces@.take(k as int)) + text@
                    =~= pieces_text(old(runs)@) + (pieces_text(pieces@.take(k as int)) + text@));
            } else {
                runs.push((color, pieces[k].1.clone()));
                assert(runs_view(runs@) =~= runs_view(before).push(pv[k as int]));
                assert(runs@.drop_last() =~= before);
                assert(pieces_text(old(runs)@) + pieces_text(pieces@.take(k as int)) + text@
                    =~= pieces_text(old(runs)@) + (pieces_text(pieces@.take(k as int)) + text@));
            }
        }
        k += 1;
    }
    assert(pv.take(k as int) =~= pv);
    assert(pieces@.take(k as int) =~= pieces@);
}

/// The name of the theme code is coloured with: a dark one for the dark preset, else a
/// light one.
pub open spec fn theme_name_for(dark: bool) -> Seq<char> {
    if dark {
        seq!['b', 'a', 's', 'e', '1', '6', '-', 'o', 'c', 'e', 'a', 'n', '.', 'd', 'a', 'r', 'k']
    } else {
        seq!['I', 'n', 's', 'p', 'i', 'r', 'e', 'd', 'G', 'i', 't', 'H', 'u', 'b']
    }
}

/// The pieces of each line, highlighted one after another from `state`, or none when a line
/// cannot be highlighted.
pub open spec fn lines_pieces(
    state: HighlightLines,
    set: SyntaxSet,
    lines: Seq<Seq<char>>,
) -> Option<Seq<Seq<(Rgb, Seq<char>)>>>
    decreases lines.len(),
{
    if lines.len() == 0 {
        Some(seq![])
    } else {
        let step = highlight_step(state, set, lines[0]);
        match step.0 {
            None => None,
            Some(p) => match lines_pieces(step.1, set, lines.drop_first()) {
                None => None,
                Some(rest) => Some(seq![p] + rest),
            },
        }
    }
}

/// The pieces of several lines, line after line, merged into runs.
pub open spec fn merged_lines(ps: Seq<Seq<(Rgb, Seq<char>)>>) -> Seq<(Rgb, Seq<char>)>
    decreases ps.len(),
{
    if ps.len() == 0 {
        seq![]
    } else {
        add_pieces(merged_lines(ps.drop_last()), ps.last())
    }
}

/// Pieces already had, followed by those still to come, if these come.
pub open spec fn followed_by(
    got: Seq<Seq<(Rgb, Seq<char>)>>,
    rest: Option<Seq<Seq<(Rgb, Seq<char>)>>>,
) -> Option<Seq<Seq<(Rgb, Seq<char>)>>> {
    match rest {
        Some(r) => Some(got + r),
        None => None,
    }
}

/// The name of syntect's plain-text syntax.
pub open spec fn plain_text_name() -> Seq<char> {
    seq!['P', 'l', 'a', 'i', 'n', ' ', 'T', 'e', 'x', 't']
}

/// The syntax a fence's language selects: found by token (extension, else name ignoring
/// ASCII case), else by extension, else the plain-text syntax, if the set has it.
pub open spec fn syntax_for(set: SyntaxSet, language: Seq<char>) -> Option<SyntaxReference> {
    let all = syntaxes_of(set);
    match by_token(set, language) {
        Some(i) => Some(all[i]),
        None => match by_extension(set, language) {
            Some(i) => Some(all[i]),
            None => match by_name(set, plain_text_name()) {
                Some(i) => Some(all[i]),
                None => None,
            },
        },
    }
}

/// The pieces of each line of `code` in the syntax `language` selects and the theme of the
/// preset: none when the theme is missing, no syntax fits, or a line cannot be highlighted.
pub open spec fn highlighted_lines_of(
    syntaxes: SyntaxSet,
    themes: ThemeSet,
    code: Seq<char>,
    language: Seq<char>,
    dark: bool,
) -> Option<Seq<Seq<(Rgb, Seq<char>)>>> {
    if !theme_names(themes).contains(theme_name_for(dark)) {
        None
    } else {
        match syntax_for(syntaxes, language) {
            None => None,
            Some(syntax) => lines_pieces(
                start_state(syntax, &theme_of(themes, theme_name_for(dark))),
                syntaxes,
                lines_with_endings_of(code),
            ),
        }
    }
}

/// The runs of `code`: the pieces of its lines merged, or none when they cannot be had.
pub open spec fn highlighted_runs_of(
    syntaxes: SyntaxSet,
    themes: ThemeSet,
    code: Seq<char>,
    language: Seq<char>,
    dark: bool,
) -> Seq<(Rgb, Seq<char>)> {
    match highlighted_lines_of(syntaxes, themes, code, language, dark) {
        Some(ps) => merged_lines(ps),
        None => seq![],
    }
}

/// The bundled syntaxes and themes.
pub struct Highlighter {
    syntax_set: SyntaxSet,
    theme_set: ThemeSet,
}

impl Highlighter {
    /// The syntaxes this highlighter holds.
    pub closed spec fn syntaxes(&self) -> SyntaxSet {
        self.syntax_set
    }

    /// The themes this highlighter holds.
    pub closed spec fn theme_set(&self) -> ThemeSet {
        self.theme_set
    }

    /// The names of the themes this highlighter holds.
    pub open spec fn themes(&self) -> Set<Seq<char>> {
        theme_names(self.theme_set())
    }

    /// Loads syntect's bundled syntaxes and themes; both themes the viewer colours with are
    /// among them.
    pub fn new() -> (r: Result<Highlighter, String>)
        ensures
            r matches Ok(h) && h.themes().contains(theme_name_for(true))
                && h.themes().contains(theme_name_for(false)),
    {
        Ok(Highlighter { syntax_set: default_syntaxes(), theme_set: default_themes() })
    }

    /// Colours `code` as the fence's `language` names it (by extension or name, else by
    /// extension alone, else as plain text) with the dark or the light theme: syntect's pieces
    /// of each line, line after line, merged into runs of one colour, which together spell the
    /// code. Nothing comes back when the theme is missing, no syntax fits, or a line cannot be
    /// highlighted.
    pub fn highlight(&self, code: &str, language: &str, dark: bool) -> (runs: Vec<(Rgb, String)>)
        ensures
            runs_view(runs@) == highlighted_runs_of(self.syntaxes(), self.theme_set(), code@, language@, dark),
            runs_wf(runs@),
            highlighted_lines_of(self.syntaxes(), self.theme_set(), code@, language@, dark) is Some
                ==> pieces_text(runs@) == code@,
            highlighted_lines_of(self.syntaxes(), self.theme_set(), code@, language@, dark) is Some
                && code@.len() > 0 ==> runs@.len() > 0,
            !self.themes().contains(theme_name_for(dark)) ==> runs@.len() == 0,
    {
        let ghost set = self.syntax_set;
        let syntax = match syntax_by_token(&self.syntax_set, language) {
            Some(syntax) => syntax,
            None => match syntax_by_extension(&self.syntax_set, language) {
                Some(syntax) => syntax,
                None => {
                    proof {
                        reveal_strlit("Plain Text");
                        assert("Plain Text"@ =~= plain_text_name());
                    }
                    match syntax_named(&self.syntax_set, "Plain Text") {
                        Some(syntax) => syntax,
                        None => return Vec::new(),
                    }
                },
            },
        };
        assert(syntax_for(set, language@) == Some(*syntax));
        let theme_name = if dark {
            "base16-ocean.dark"
        } else {
            "InspiredGitHub"
        };
        proof {
            reveal_strlit("base16-ocean.dark");
            reveal_strlit("InspiredGitHub");
            assert(theme_name@ =~= theme_name_for(dark));
        }
        let theme = match theme_named(&self.theme_set, theme_name) {
            Some(theme) => theme,
            None => return Vec::new(),
        };
        let mut highlighter = line_highlighter(syntax, theme);
        let lines = lines_with_endings(code);
        let ghost lv = crate::text::strings_view(lines@);
        let ghost whole = lines_pieces(highlighter, set, lv);
        assert(whole == highlighted_lines_of(self.syntaxes(), self.theme_set(), code@, language@, dark));
        proof {
            lemma_lines_spell_text(code@);
            assert(lv.skip(0) =~= lv);
        }
        let ghost mut got: Seq<Seq<(Rgb, Seq<char>)>> = seq![];
        proof {
            match lines_pieces(highlighter, set, lv.skip(0)) {
                Some(r) => assert(got + r =~= r),
                None => {},
            }
        }
        let mut runs: Vec<(Rgb, String)> = Vec::new();
        assert(runs_view(runs@) =~= Seq::<(Rgb, Seq<char>)>::empty());
        let mut i: usize = 0;
        while i < lines.len()
            invariant
                i <= lines.len(),
                set == self.syntax_set,
                lv == crate::text::strings_view(lines@),
                lv == lines_with_endings_of(code@),
                lines_text(lv) == code@,
                runs_wf(runs@),
                pieces_text(runs@) == lines_text(lv.take(i as int)),
                whole == highlighted_lines_of(self.syntaxes(), self.theme_set(), code@, language@, dark),
                whole == followed_by(got, lines_pieces(highlighter, set, lv.skip(i as int))),
                runs_view(runs@) == merged_lines(got),
            decreases lines.len() - i,
        {
            assert(lv.take(i + 1).drop_last() =~= lv.take(i as int));
            assert(lv.skip(i as int)[0] == lv[i as int]);
            assert(lv.skip(i as int).drop_first() =~= lv.skip(i + 1));
            assert(lv[i as int] == lines@[i as int]@);
            let ghost before = highlighter;
            match highlight_line(&mut highlighter, lines[i].as_str(), &self.syntax_set) {
                Ok(pieces) => {
                    let ghost pv = runs_view(pieces@);
                    add_highlighted(&mut runs, pieces);
                    proof {
                        let rest = lines_pieces(highlighter, set, lv.skip(i + 1));
                        match rest {
                            Some(r) => {
                                assert(got + (seq![pv] + r) =~= got.push(pv) + r);
                            },
                            None => {},
                        }
                        assert(got.push(pv).drop_last() =~= got);
                        got = got.push(pv);
                    }
                },
                Err(_) => {
                    assert(highlight_step(before, set, lv.skip(i as int)[0]).0 is None);
                    assert(lines_pieces(before, set, lv.skip(i as int)) is None);
                    return Vec::new();
                },
            }
            i += 1;
        }
        assert(lv.take(i as int) =~= lv);
        assert(lv.skip(i as int) =~= Seq::<Seq<char>>::empty());
        assert(got + Seq::<Seq<(Rgb, Seq<char>)>>::empty() =~= got);
        runs
    }
}

} // verus!
