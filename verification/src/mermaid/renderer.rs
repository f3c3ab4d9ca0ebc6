//! What the Mermaid renderer hands the document, and the text work of the ER table overlay.
use vstd::prelude::*;

use crate::text::{
    chars_of, join, join_seq, push_char, push_chars, same_text, split_words, starts_with_seq,
    strings_view, trim, trim_seq, words_of,
};

verus! {

/// An RGBA raster, row by row, four bytes per pixel, not premultiplied.
#[derive(Debug, Clone)]
pub struct RasterImage {
    pub width: usize,
    pub height: usize,
    pub rgba: Vec<u8>,
}

/// Where a Mermaid block stands in its rendering.
#[derive(Debug, Clone)]
pub enum MermaidRenderState {
    Pending,
    Rendered { image: RasterImage },
    Failed { reason: String },
}

impl MermaidRenderState {
    pub fn is_pending(&self) -> (b: bool)
        ensures
            b == self is Pending,
    {
        match self {
            MermaidRenderState::Pending => true,
            _ => false,
        }
    }
}

/// The line that parts an ER entity's title from its attributes, once trimmed.
pub open spec fn is_divider(line: Seq<char>) -> bool {
    trim_seq(line) == "---"@
}

/// The position of the first divider line, if there is one.
pub open spec fn first_divider(lines: Seq<Seq<char>>) -> Option<int>
    decreases lines.len(),
{
    if lines.len() == 0 {
        None
    } else {
        match first_divider(lines.drop_last()) {
            Some(k) => Some(k),
            None => if is_divider(lines.last()) {
                Some(lines.len() - 1)
            } else {
                None
            },
        }
    }
}

proof fn lemma_first_divider_bound(lines: Seq<Seq<char>>)
    ensures
        first_divider(lines) matches Some(k) ==> 0 <= k < lines.len() && is_divider(lines[k]),
    decreases lines.len(),
{
    if lines.len() > 0 {
        lemma_first_divider_bound(lines.drop_last());
    }
}

/// The position of the first divider line among `lines`.
fn find_divider(lines: &[String]) -> (d: Option<usize>)
    ensures
        match d {
            Some(k) => first_divider(strings_view(lines@)) == Some(k as int),
            None => first_divider(strings_view(lines@)) is None,
        },
{
    let ghost lv = strings_view(lines@);
    let mut found: Option<usize> = None;
    let mut k: usize = 0;
    while k < lines.len()
        invariant
            k <= lines.len(),
            lv == strings_view(lines@),
            match found {
                Some(j) => first_divider(lv.take(k as int)) == Some(j as int),
                None => first_divider(lv.take(k as int)) is None,
            },
        decreases lines.len() - k,
    {
        assert(lv.take(k + 1).drop_last() =~= lv.take(k as int));
        if found.is_none() {
            let t = trim(lines[k].as_str());
            if same_text(t.as_str(), "---") {
                found = Some(k);
            }
        }
        k += 1;
    }
    assert(lv.take(k as int) =~= lv);
    found
}

/// One attribute row of an ER entity: its type, its name, its key marks and its comment.
#[derive(Debug, Clone)]
pub struct ErAttributeRow {
    pub data_type: String,
    pub name: String,
    pub key: String,
    pub comment: String,
}

/// The position of the first word that opens a quoted comment, or the number of words.
pub open spec fn comment_start(words: Seq<Seq<char>>) -> int
    decreases words.len(),
{
    if words.len() == 0 {
        0
    } else {
        let c = comment_start(words.drop_last());
        if c < words.len() - 1 {
            c
        } else if starts_with_seq(words.last(), seq!['"']) {
            words.len() - 1
        } else {
            words.len() as int
        }
    }
}

proof fn lemma_comment_start_bound(words: Seq<Seq<char>>)
    ensures
        0 <= comment_start(words) <= words.len(),
    decreases words.len(),
{
    if words.len() > 0 {
        lemma_comment_start_bound(words.drop_last());
    }
}

/// The attribute row an ER line describes: its first two words are the type and the name,
/// the words up to the first one that opens a quote are the key marks, and the rest is the
/// comment; a line of fewer than two words gives none.
pub open spec fn attribute_row_of(line: Seq<char>) -> Option<(Seq<char>, Seq<char>, Seq<char>, Seq<char>)> {
    let words = words_of(line);
    if words.len() < 2 {
        None
    } else {
        let rest = words.skip(2);
        let c = comment_start(rest);
        Some((words[0], words[1], join_seq(rest.take(c), " "@), join_seq(rest.skip(c), " "@)))
    }
}

/// The attribute rows of an ER entity's label lines: those after the first divider line.
pub open spec fn attribute_rows_of(lines: Seq<Seq<char>>) -> Seq<(Seq<char>, Seq<char>, Seq<char>, Seq<char>)> {
    match first_divider(lines) {
        Some(d) => lines.skip(d + 1).filter_map(|line: Seq<char>| attribute_row_of(line)),
        None => seq![],
    }
}

pub open spec fn row_view(r: ErAttributeRow) -> (Seq<char>, Seq<char>, Seq<char>, Seq<char>) {
    (r.data_type@, r.name@, r.key@, r.comment@)
}

fn copy_strings(v: &Vec<String>, from: usize, to: usize) -> (r: Vec<String>)
    requires
        from <= to <= v.len(),
    ensures
        strings_view(r@) == strings_view(v@).subrange(from as int, to as int),
{
    let mut r: Vec<String> = Vec::new();
    let mut k = from;
    while k < to
        invariant
            from <= k <= to <= v.len(),
            strings_view(r@) == strings_view(v@).subrange(from as int, k as int),
        decreases to - k,
    {
        let ghost before = r@;
        let item = v[k].clone();
        assert(item == v@[k as int]);
        r.push(item);
        proof {
            crate::text::lemma_strings_view_push(before, item);
        }
        assert(strings_view(v@).subrange(from as int, k + 1) =~= strings_view(v@).subrange(from as int, k as int).push(v@[k as int]@));
        k += 1;
    }
    r
}

/// The attribute row one ER line describes, if it has at least two words.
fn attribute_row(line: &str) -> (r: Option<ErAttributeRow>)
    ensures
        match r {
            Some(row) => attribute_row_of(line@) == Some(row_view(row)),
            None => attribute_row_of(line@) is None,
        },
{
    let words = split_words(line);
    let ghost wv = strings_view(words@);
    if words.len() < 2 {
        return None;
    }
    let rest = copy_strings(&words, 2, words.len());
    let ghost rv = strings_view(rest@);
    assert(rv =~= wv.skip(2));
    let mut c: usize = 0;
    while c < rest.len() && !opens_quote(rest[c].as_str())
        invariant
            c <= rest.len(),
            rv == strings_view(rest@),
            comment_start(rv.take(c as int)) == c,
        decreases rest.len() - c,
    {
        assert(rv.take(c + 1).drop_last() =~= rv.take(c as int));
        c += 1;
    }
    proof {
        if c == rest.len() {
            assert(rv.take(c as int) =~= rv);
        } else {
            lemma_comment_start_prefix(rv, c as int);
        }
    }
    assert(comment_start(rv) == c);
    let key_words = copy_strings(&rest, 0, c);
    let comment_words = copy_strings(&rest, c, rest.len());
    assert(strings_view(key_words@) =~= rv.take(c as int));
    assert(strings_view(comment_words@) =~= rv.skip(c as int));
    let key = join(&key_words, " ");
    let comment = join(&comment_words, " ");
    Some(ErAttributeRow {
        data_type: words[0].clone(),
        name: words[1].clone(),
        key,
        comment,
    })
}

/// Whether a word opens a quoted comment.
fn opens_quote(word: &str) -> (b: bool)
    ensures
        b == starts_with_seq(word@, seq!['"']),
{
    let w = chars_of(word);
    if w.len() > 0 && w[0] == '"' {
        assert(w@.take(1) =~= seq!['"']);
        true
    } else {
        assert(w.len() > 0 ==> w@.take(1)[0] == w@[0]);
        false
    }
}

/// Once the first quote-opening word is found at `c`, more words after it keep it first.
proof fn lemma_comment_start_prefix(words: Seq<Seq<char>>, c: int)
    requires
        0 <= c < words.len(),
        comment_start(words.take(c)) == c,
        starts_with_seq(words[c], seq!['"']),
    ensures
        comment_start(words) == c,
    decreases words.len(),
{
    if words.len() == c + 1 {
        assert(words.drop_last() =~= words.take(c));
    } else {
        assert(words.drop_last().take(c) =~= words.take(c));
        assert(words.drop_last()[c] == words[c]);
        lemma_comment_start_prefix(words.drop_last(), c);
    }
}

/// The attribute rows of an ER entity: the lines after its first `---` line that have at
/// least a type and a name.
pub fn er_attribute_rows(lines: &[String]) -> (rows: Vec<ErAttributeRow>)
    ensures
        rows@.map_values(|r: ErAttributeRow| row_view(r)) == attribute_rows_of(strings_view(lines@)),
{
    let ghost lv = strings_view(lines@);
    let mut rows: Vec<ErAttributeRow> = Vec::new();
    let d = match find_divider(lines) {
        Some(d) => d,
        None => {
            assert(rows@.map_values(|r: ErAttributeRow| row_view(r)) =~= seq![]);
            return rows;
        },
    };
    assert(first_divider(lv) == Some(d as int));
    proof {
        lemma_first_divider_bound(lv);
    }
    assert(lv.len() == lines@.len());
    assert(d < lines.len());
    let ghost tail = lv.skip(d + 1);
    let mut k: usize = d + 1;
    while k < lines.len()
        invariant
            d < k <= lines.len(),
            lv == strings_view(lines@),
            tail == lv.skip(d + 1),
            rows@.map_values(|r: ErAttributeRow| row_view(r))
                == tail.take(k - d - 1).filter_map(|line: Seq<char>| attribute_row_of(line)),
        decreases lines.len() - k,
    {
        assert(tail.take(k - d).drop_last() =~= tail.take(k - d - 1));
        assert(tail.take(k - d).last() == lines@[k as int]@);
        let ghost before = rows@;
        match attribute_row(lines[k].as_str()) {
            Some(row) => {
                rows.push(row);
                assert(rows@.map_values(|r: ErAttributeRow| row_view(r))
                    =~= before.map_values(|r: ErAttributeRow| row_view(r)).push(row_view(rows@.last())));
            },
            None => {},
        }
        k += 1;
    }
    assert(tail.take(k - d - 1) =~= tail);
    rows
}

/// The first line before the divider that is not blank, if there is a divider.
pub open spec fn table_title_of(lines: Seq<Seq<char>>) -> Option<Seq<char>> {
    match first_divider(lines) {
        Some(d) => first_filled(lines.take(d)),
        None => None,
    }
}

/// The first line that is not blank once trimmed.
pub open spec fn first_filled(lines: Seq<Seq<char>>) -> Option<Seq<char>>
    decreases lines.len(),
{
    if lines.len() == 0 {
        None
    } else if trim_seq(lines[0]).len() > 0 {
        Some(lines[0])
    } else {
        first_filled(lines.drop_first())
    }
}

/// The title of an ER entity: its first non-blank line before the `---` line.
pub fn er_table_title(lines: &[String]) -> (title: Option<String>)
    ensures
        match title {
            Some(t) => table_title_of(strings_view(lines@)) == Some(t@),
            None => table_title_of(strings_view(lines@)) is None,
        },
{
    let ghost lv = strings_view(lines@);
    let d = match find_divider(lines) {
        Some(d) => d,
        None => return None,
    };
    proof {
        lemma_first_divider_bound(lv);
    }
    assert(lv.len() == lines@.len());
    assert(lv.take(d as int).skip(0) =~= lv.take(d as int));
    let mut k: usize = 0;
    while k < d
        invariant
            k <= d < lines.len(),
            lv == strings_view(lines@),
            lv.len() == lines@.len(),
            first_divider(lv) == Some(d as int),
            first_filled(lv.take(d as int)) == first_filled(lv.take(d as int).skip(k as int)),
        decreases d - k,
    {
        let ghost rest = lv.take(d as int).skip(k as int);
        assert(rest[0] == lines@[k as int]@);
        assert(rest.drop_first() =~= lv.take(d as int).skip(k + 1));
        let t = trim(lines[k].as_str());
        if chars_of(t.as_str()).len() > 0 {
            let title = lines[k].clone();
            assert(title@ == lines@[k as int]@);
            return Some(title);
        }
        k += 1;
    }
    assert(lv.take(d as int).skip(k as int) =~= Seq::<Seq<char>>::empty());
    None
}

/// What a character becomes in XML text or an attribute value.
pub open spec fn xml_escape_char(c: char) -> Seq<char> {
    if c == '&' {
        "&amp;"@
    } else if c == '<' {
        "&lt;"@
    } else if c == '>' {
        "&gt;"@
    } else if c == '"' {
        "&quot;"@
    } else if c == '\'' {
        "&apos;"@
    } else {
        seq![c]
    }
}

/// `text` with the five XML special characters written as entities.
pub open spec fn xml_escaped(text: Seq<char>) -> Seq<char>
    decreases text.len(),
{
    if text.len() == 0 {
        seq![]
    } else {
        xml_escaped(text.drop_last()) + xml_escape_char(text.last())
    }
}

/// Escapes the XML special characters `&`, `<`, `>`, `"` and `'` of `text`.
pub fn xml_escape(text: &str) -> (escaped: String)
    ensures
        escaped@ == xml_escaped(text@),
{
    let chars = chars_of(text);
    let amp = chars_of("&amp;");
    let lt = chars_of("&lt;");
    let gt = chars_of("&gt;");
    let quot = chars_of("&quot;");
    let apos = chars_of("&apos;");
    let mut out = String::new();
    let mut i: usize = 0;
    while i < chars.len()
        invariant
            i <= chars.len(),
            chars@ == text@,
            amp@ == "&amp;"@,
            lt@ == "&lt;"@,
            gt@ == "&gt;"@,
            quot@ == "&quot;"@,
            apos@ == "&apos;"@,
            out@ == xml_escaped(chars@.take(i as int)),
        decreases chars.len() - i,
    {
        assert(chars@.take(i + 1).drop_last() =~= chars@.take(i as int));
        let c = chars[i];
        if c == '&' {
            push_chars(&mut out, &amp);
        } else if c == '<' {
            push_chars(&mut out, &lt);
        } else if c == '>' {
            push_chars(&mut out, &gt);
        } else if c == '"' {
            push_chars(&mut out, &quot);
        } else if c == '\'' {
            push_chars(&mut out, &apos);
        } else {
            let ghost before = out@;
            push_char(&mut out, c);
            assert(out@ =~= before + seq![c]);
        }
        i += 1;
    }
    assert(chars@.take(i as int) =~= chars@);
    out
}

/// Escaped text holds none of the characters that end XML text or attribute values: no
/// `<`, `>`, `"` or `'` is left in it.
pub proof fn lemma_xml_escaped_is_plain(text: Seq<char>)
    ensures
        forall|i: int| 0 <= i < xml_escaped(text).len() ==> {
            let c = #[trigger] xml_escaped(text)[i];
            c != '<' && c != '>' && c != '"' && c != '\''
        },
    decreases text.len(),
{
    reveal_strlit("&amp;");
    reveal_strlit("&lt;");
    reveal_strlit("&gt;");
    reveal_strlit("&quot;");
    reveal_strlit("&apos;");
    if text.len() > 0 {
        lemma_xml_escaped_is_plain(text.drop_last());
        let a = xml_escaped(text.drop_last());
        let b = xml_escape_char(text.last());
        assert(xml_escaped(text) == a + b);
        assert forall|i: int| 0 <= i < b.len() implies {
            let c = #[trigger] b[i];
            c != '<' && c != '>' && c != '"' && c != '\''
        } by {
            assert("&amp;"@ =~= seq!['&', 'a', 'm', 'p', ';']);
            assert("&lt;"@ =~= seq!['&', 'l', 't', ';']);
            assert("&gt;"@ =~= seq!['&', 'g', 't', ';']);
            assert("&quot;"@ =~= seq!['&', 'q', 'u', 'o', 't', ';']);
            assert("&apos;"@ =~= seq!['&', 'a', 'p', 'o', 's', ';']);
        }
        assert forall|i: int| 0 <= i < xml_escaped(text).len() implies {
            let c = #[trigger] xml_escaped(text)[i];
            c != '<' && c != '>' && c != '"' && c != '\''
        } by {
            if i < a.len() {
                assert(xml_escaped(text)[i] == a[i]);
            } else {
                assert(xml_escaped(text)[i] == b[i - a.len()]);
            }
        }
    }
}

/// Escaped text with its entities `&amp;`, `&lt;`, `&gt;`, `&quot;` and `&apos;` read back as
/// the characters they stand for, from the left.
pub open spec fn xml_unescaped(s: Seq<char>) -> Seq<char>
    decreases s.len(),
{
    if s.len() == 0 {
        seq![]
    } else if starts_with_seq(s, seq!['&', 'a', 'm', 'p', ';']) {
        seq!['&'] + xml_unescaped(s.skip(5))
    } else if starts_with_seq(s, seq!['&', 'l', 't', ';']) {
        seq!['<'] + xml_unescaped(s.skip(4))
    } else if starts_with_seq(s, seq!['&', 'g', 't', ';']) {
        seq!['>'] + xml_unescaped(s.skip(4))
    } else if starts_with_seq(s, seq!['&', 'q', 'u', 'o', 't', ';']) {
        seq!['"'] + xml_unescaped(s.skip(6))
    } else if starts_with_seq(s, seq!['&', 'a', 'p', 'o', 's', ';']) {
        seq!['\''] + xml_unescaped(s.skip(6))
    } else {
        seq![s[0]] + xml_unescaped(s.skip(1))
    }
}

proof fn lemma_xml_escaped_concat(a: Seq<char>, b: Seq<char>)
    ensures
        xml_escaped(a + b) == xml_escaped(a) + xml_escaped(b),
    decreases b.len(),
{
    if b.len() == 0 {
        assert(a + b =~= a);
        assert(xml_escaped(a) + xml_escaped(b) =~= xml_escaped(a));
    } else {
        lemma_xml_escaped_concat(a, b.drop_last());
        assert((a + b).drop_last() =~= a + b.drop_last());
        assert(xml_escaped(a) + xml_escaped(b.drop_last()) + xml_escape_char(b.last())
            =~= xml_escaped(a) + (xml_escaped(b.drop_last()) + xml_escape_char(b.last())));
    }
}

proof fn lemma_unescape_one(c: char, rest: Seq<char>)
    ensures
        xml_unescaped(xml_escape_char(c) + rest) == seq![c] + xml_unescaped(rest),
{
    reveal_strlit("&amp;");
    reveal_strlit("&lt;");
    reveal_strlit("&gt;");
    reveal_strlit("&quot;");
    reveal_strlit("&apos;");
    let e = xml_escape_char(c);
    let s = e + rest;
    assert(s.skip(e.len() as int) =~= rest);
    assert(s.len() > 0);
    if c == '&' {
        assert(e =~= seq!['&', 'a', 'm', 'p', ';']);
        assert(s.take(5) =~= e);
    } else if c == '<' {
        assert(e =~= seq!['&', 'l', 't', ';']);
        assert(s.take(4) =~= e);
        assert(s[1] == 'l');
    } else if c == '>' {
        assert(e =~= seq!['&', 'g', 't', ';']);
        assert(s.take(4) =~= e);
        assert(s[1] == 'g');
    } else if c == '"' {
        assert(e =~= seq!['&', 'q', 'u', 'o', 't', ';']);
        assert(s.take(6) =~= e);
        assert(s[1] == 'q');
    } else if c == '\'' {
        assert(e =~= seq!['&', 'a', 'p', 'o', 's', ';']);
        assert(s.take(6) =~= e);
        assert(s[1] == 'a' && s[2] == 'p');
    } else {
        assert(e =~= seq![c]);
        assert(s[0] == c);
    }
}

/// Escaping can be undone: reading the entities of escaped text back gives the text.
pub proof fn lemma_xml_escape_round_trip(text: Seq<char>)
    ensures
        xml_unescaped(xml_escaped(text)) == text,
    decreases text.len(),
{
    if text.len() > 0 {
        let rest = text.drop_first();
        assert(seq![text[0]] + rest =~= text);
        lemma_xml_escaped_concat(seq![text[0]], rest);
        assert(seq![text[0]].drop_last() =~= Seq::<char>::empty());
        assert(seq![text[0]].last() == text[0]);
        assert(xml_escaped(Seq::<char>::empty()) == Seq::<char>::empty());
        assert(Seq::<char>::empty() + xml_escape_char(text[0]) =~= xml_escape_char(text[0]));
        assert(xml_escaped(seq![text[0]]) =~= xml_escape_char(text[0]));
        lemma_unescape_one(text[0], xml_escaped(rest));
        lemma_xml_escape_round_trip(rest);
    }
}

/// Text without special characters comes out of escaping as it went in.
pub proof fn lemma_xml_escaped_plain_text(text: Seq<char>)
    requires
        forall|i: int| 0 <= i < text.len() ==> {
            let c = #[trigger] text[i];
            c != '&' && c != '<' && c != '>' && c != '"' && c != '\''
        },
    ensures
        xml_escaped(text) == text,
    decreases text.len(),
{
    if text.len() > 0 {
        assert forall|i: int| 0 <= i < text.drop_last().len() implies {
            let c = #[trigger] text.drop_last()[i];
            c != '&' && c != '<' && c != '>' && c != '"' && c != '\''
        } by {
            assert(text.drop_last()[i] == text[i]);
        }
        lemma_xml_escaped_plain_text(text.drop_last());
        let c = text[text.len() - 1];
        assert(c != '&' && c != '<' && c != '>' && c != '"' && c != '\'');
        assert(text.drop_last() + seq![text.last()] =~= text);
    }
}

/// The position of the first participant named `id`.
pub open spec fn participant_position(ids: Seq<Seq<char>>, id: Seq<char>) -> Option<int>
    decreases ids.len(),
{
    if ids.len() == 0 {
        None
    } else {
        match participant_position(ids.drop_last(), id) {
            Some(k) => Some(k),
            None => if ids.last() == id {
                Some(ids.len() - 1)
            } else {
                None
            },
        }
    }
}

/// The position of the first participant, among `ids` in order, named `id`.
pub fn participant_index(ids: &[String], id: &str) -> (k: Option<usize>)
    ensures
        match k {
            Some(j) => participant_position(strings_view(ids@), id@) == Some(j as int),
            None => participant_position(strings_view(ids@), id@) is None,
        },
{
    let ghost iv = strings_view(ids@);
    let mut found: Option<usize> = None;
    let mut k: usize = 0;
    while k < ids.len()
        invariant
            k <= ids.len(),
            iv == strings_view(ids@),
            match found {
                Some(j) => participant_position(iv.take(k as int), id@) == Some(j as int),
                None => participant_position(iv.take(k as int), id@) is None,
            },
        decreases ids.len() - k,
    {
        assert(iv.take(k + 1).drop_last() =~= iv.take(k as int));
        if found.is_none() && same_text(ids[k].as_str(), id) {
            found = Some(k);
        }
        k += 1;
    }
    assert(iv.take(k as int) =~= iv);
    found
}

/// The positions of those `participants` that are among `ids`, in the order named.
pub open spec fn participant_positions(ids: Seq<Seq<char>>, participants: Seq<Seq<char>>) -> Seq<int> {
    participants.filter_map(|p: Seq<char>| participant_position(ids, p))
}

/// The leftmost and the rightmost of the positions that `participants` name among `ids`, if
/// they name any.
pub open spec fn participant_span_of(ids: Seq<Seq<char>>, participants: Seq<Seq<char>>) -> Option<(int, int)> {
    let positions = participant_positions(ids, participants);
    if positions.len() == 0 {
        None
    } else {
        Some((seq_min(positions), seq_max(positions)))
    }
}

/// The least of a non-empty sequence of integers.
pub open spec fn seq_min(s: Seq<int>) -> int
    decreases s.len(),
{
    if s.len() <= 1 {
        s[0]
    } else if s.last() < seq_min(s.drop_last()) {
        s.last()
    } else {
        seq_min(s.drop_last())
    }
}

/// The greatest of a non-empty sequence of integers.
pub open spec fn seq_max(s: Seq<int>) -> int
    decreases s.len(),
{
    if s.len() <= 1 {
        s[0]
    } else if s.last() > seq_max(s.drop_last()) {
        s.last()
    } else {
        seq_max(s.drop_last())
    }
}

proof fn lemma_participant_position_bound(ids: Seq<Seq<char>>, id: Seq<char>)
    ensures
        participant_position(ids, id) matches Some(k) ==> 0 <= k < ids.len(),
    decreases ids.len(),
{
    if ids.len() > 0 {
        lemma_participant_position_bound(ids.drop_last(), id);
    }
}

/// The leftmost and rightmost positions among `ids` of the named `participants` that are
/// there, if any is.
pub fn participant_span(ids: &[String], participants: &[String]) -> (span: Option<(usize, usize)>)
    ensures
        match span {
            Some((left, right)) => participant_span_of(strings_view(ids@), strings_view(participants@))
                == Some((left as int, right as int)),
            None => participant_span_of(strings_view(ids@), strings_view(participants@)) is None,
        },
{
    let ghost iv = strings_view(ids@);
    let ghost pv = strings_view(participants@);
    let ghost fm = |p: Seq<char>| participant_position(iv, p);
    let mut span: Option<(usize, usize)> = None;
    let mut k: usize = 0;
    while k < participants.len()
        invariant
            k <= participants.len(),
            iv == strings_view(ids@),
            pv == strings_view(participants@),
            fm == (|p: Seq<char>| participant_position(iv, p)),
            match span {
                Some((l, r)) => {
                    &&& pv.take(k as int).filter_map(fm).len() > 0
                    &&& seq_min(pv.take(k as int).filter_map(fm)) == l
                    &&& seq_max(pv.take(k as int).filter_map(fm)) == r
                },
                None => pv.take(k as int).filter_map(fm).len() == 0,
            },
        decreases participants.len() - k,
    {
        assert(pv.take(k + 1).drop_last() =~= pv.take(k as int));
        assert(pv.take(k + 1).last() == participants@[k as int]@);
        let ghost before = pv.take(k as int).filter_map(fm);
        match participant_index(ids, participants[k].as_str()) {
            Some(j) => {
                proof {
                    lemma_participant_position_bound(iv, participants@[k as int]@);
                }
                let ghost now = pv.take(k + 1).filter_map(fm);
                assert(now =~= before + seq![j as int]);
                assert(now.drop_last() =~= before);
                span = match span {
                    Some((l, r)) => Some((if j < l { j } else { l }, if j > r { j } else { r })),
                    None => Some((j, j)),
                };
            },
            None => {},
        }
        k += 1;
    }
    assert(pv.take(k as int) =~= pv);
    span
}

} // verus!
