//! Styled text for the terminal. Commands compute the lines they show; printing
//! them is left to the caller.

use vstd::prelude::*;

use crate::text::{chars_between, chars_of, decimal_string, string_of};

verus! {

/// How a piece of text is shown.
#[derive(Debug, Clone, Copy, PartialEq, Eq, Structural)]
pub enum Style {
    /// As it is.
    Plain,
    /// Bold.
    Bold,
    /// Dimmed.
    Dimmed,
    /// Red.
    Red,
    /// Red and bold.
    BoldRed,
    /// Green.
    Green,
    /// Green and bold.
    BoldGreen,
    /// Yellow.
    Yellow,
    /// Yellow and bold.
    BoldYellow,
    /// Cyan.
    Cyan,
    /// Cyan and bold.
    BoldCyan,
    /// Bright blue.
    BrightBlue,
    /// Bright cyan.
    BrightCyan,
    /// Bright yellow.
    BrightYellow,
}

/// A piece of text in one style.
#[derive(Debug)]
pub struct Span {
    /// The text.
    pub text: String,
    /// Its style.
    pub style: Style,
}

/// A piece of text in one style.
#[verifier::ext_equal]
pub struct SpanView {
    /// The text.
    pub text: Seq<char>,
    /// Its style.
    pub style: Style,
}

impl View for Span {
    type V = SpanView;

    open spec fn view(&self) -> SpanView {
        SpanView { text: self.text@, style: self.style }
    }
}

/// The given text in the given style.
pub open spec fn styled(text: Seq<char>, style: Style) -> SpanView {
    SpanView { text, style }
}

/// The given text as it is.
pub open spec fn plain(text: Seq<char>) -> SpanView {
    SpanView { text, style: Style::Plain }
}

/// What a line shows.
pub open spec fn line(spans: Seq<Span>) -> Seq<SpanView> {
    spans.map_values(|s: Span| s@)
}

/// What a sequence of lines shows.
pub open spec fn page(lines: Seq<Vec<Span>>) -> Seq<Seq<SpanView>> {
    lines.map_values(|l: Vec<Span>| line(l@))
}

/// A line with nothing on it.
pub open spec fn empty_line() -> Seq<SpanView> {
    Seq::<SpanView>::empty()
}

/// A page without lines.
pub open spec fn empty_page() -> Seq<Seq<SpanView>> {
    Seq::<Seq<SpanView>>::empty()
}

/// A line with nothing on it.
pub fn blank() -> (l: Vec<Span>)
    ensures
        line(l@) == empty_line(),
{
    let l: Vec<Span> = Vec::new();
    assert(line(l@) =~= empty_line());
    l
}

/// A page without lines.
pub fn no_lines() -> (p: Vec<Vec<Span>>)
    ensures
        page(p@) == empty_page(),
{
    let p: Vec<Vec<Span>> = Vec::new();
    assert(page(p@) =~= empty_page());
    p
}

/// Puts a text at the end of a line.
pub fn put(l: &mut Vec<Span>, text: &str, style: Style)
    ensures
        line(final(l)@) == line(old(l)@).push(styled(text@, style)),
{
    l.push(Span { text: text.to_owned(), style });
    assert(line(l@) =~= line(old(l)@).push(styled(text@, style)));
}

/// Puts a number at the end of a line.
pub fn put_number(l: &mut Vec<Span>, n: u64, style: Style)
    ensures
        line(final(l)@) == line(old(l)@).push(styled(crate::text::decimal(n as nat), style)),
{
    let s = decimal_string(n);
    put(l, s.as_str(), style);
}

/// Puts a line at the end of a page.
pub fn add_line(p: &mut Vec<Vec<Span>>, l: Vec<Span>)
    ensures
        page(final(p)@) == page(old(p)@).push(line(l@)),
{
    p.push(l);
    assert(page(p@) =~= page(old(p)@).push(line(l@)));
}

/// Puts a line with nothing on it at the end of a page.
pub fn add_blank(p: &mut Vec<Vec<Span>>)
    ensures
        page(final(p)@) == page(old(p)@).push(empty_line()),
{
    let l = blank();
    add_line(p, l);
}

/// Puts a line with one text at the end of a page.
pub fn add_text(p: &mut Vec<Vec<Span>>, text: &str, style: Style)
    ensures
        page(final(p)@) == page(old(p)@).push(seq![styled(text@, style)]),
{
    let mut l = blank();
    put(&mut l, text, style);
    add_line(p, l);
}

/// Puts the lines of a page at the end of another.
pub fn add_page(p: &mut Vec<Vec<Span>>, more: Vec<Vec<Span>>)
    ensures
        page(final(p)@) == page(old(p)@) + page(more@),
{
    let ghost lines = more@;
    let mut more = more;
    p.append(&mut more);
    assert(page(p@) =~= page(old(p)@) + page(lines));
}

/// The line under a heading.
pub open spec fn rule() -> Seq<char> {
    "━━━━━━━━━━━━━━━━━━━━━━━━━━━━━━━━━━━━━━━━━━━━━━━━━━"@
}

/// The text with spaces behind it up to the given width.
pub open spec fn pad_right(s: Seq<char>, width: nat) -> Seq<char> {
    if s.len() < width {
        s + Seq::new((width - s.len()) as nat, |i: int| ' ')
    } else {
        s
    }
}

/// Fills a text up with spaces.
pub fn padded_to(s: &str, width: usize) -> (r: String)
    ensures
        r@ == pad_right(s@, width as nat),
{
    let mut out = s.to_owned();
    let mut n: usize = chars_of(s).len();
    while n < width
        invariant
            s@.len() <= n,
            n <= width || n == s@.len(),
            out@ == s@ + Seq::new((n - s@.len()) as nat, |i: int| ' '),
        decreases width - n,
    {
        out.push(' ');
        n = n + 1;
        assert(out@ =~= s@ + Seq::new((n - s@.len()) as nat, |i: int| ' '));
    }
    assert(out@ =~= pad_right(s@, width as nat));
    out
}

/// The first characters of a text, at most the given number.
pub open spec fn clip(s: Seq<char>, n: nat) -> Seq<char> {
    if s.len() <= n {
        s
    } else {
        s.take(n as int)
    }
}

/// The first characters of a text.
pub fn clipped(s: &str, n: usize) -> (r: String)
    ensures
        r@ == clip(s@, n as nat),
{
    let chars = chars_of(s);
    let hi: usize = if chars.len() <= n { chars.len() } else { n };
    let part = chars_between(chars.as_slice(), 0, hi);
    assert(part@ =~= clip(s@, n as nat));
    string_of(part.as_slice())
}

/// The texts one behind the other with a separator between them.
pub open spec fn join(parts: Seq<Seq<char>>, sep: Seq<char>) -> Seq<char>
    decreases parts.len(),
{
    if parts.len() == 0 {
        Seq::empty()
    } else if parts.len() == 1 {
        parts[0]
    } else {
        join(parts.drop_last(), sep) + sep + parts.last()
    }
}

/// Joins texts.
pub fn joined_texts(parts: &Vec<String>, sep: &str) -> (r: String)
    ensures
        r@ == join(crate::text::texts(parts@), sep@),
{
    let ghost all = crate::text::texts(parts@);
    let mut out = String::new();
    let mut i: usize = 0;
    while i < parts.len()
        invariant
            i <= parts.len(),
            all == crate::text::texts(parts@),
            out@ == join(all.take(i as int), sep@),
        decreases parts.len() - i,
    {
        let ghost next = all.take(i + 1);
        if i > 0 {
            out.append(sep);
        }
        out.append(parts[i].as_str());
        proof {
            assert(next.drop_last() =~= all.take(i as int));
            assert(next.last() == parts@[i as int]@);
            assert(out@ =~= join(next, sep@));
        }
        i = i + 1;
    }
    assert(all.take(all.len() as int) =~= all);
    out
}

/// One text behind another.
pub fn concat(a: &str, b: &str) -> (r: String)
    ensures
        r@ == a@ + b@,
{
    let mut r = a.to_owned();
    r.append(b);
    r
}

/// A number between two texts.
pub fn counted_text(before: &str, n: u64, after: &str) -> (r: String)
    ensures
        r@ == before@ + crate::text::decimal(n as nat) + after@,
{
    let mut r = before.to_owned();
    r.append(decimal_string(n).as_str());
    r.append(after);
    r
}

/// Texts are joined one after the other with the separator between each two.
pub proof fn joined_parts_follow_each_other(first: Seq<char>, rest: Seq<Seq<char>>, sep: Seq<char>)
    ensures
        join(seq![first], sep) == first,
        rest.len() > 0 ==> join(seq![first] + rest, sep) == first + sep + join(rest, sep),
    decreases rest.len(),
{
    if rest.len() > 0 {
        let all = seq![first] + rest;
        let front = rest.drop_last();
        assert(all.drop_last() =~= seq![first] + front);
        assert(all.last() == rest.last());
        joined_parts_follow_each_other(first, front, sep);
        if rest.len() == 1 {
            assert(seq![first] + front =~= seq![first]);
            assert(join(all, sep) =~= first + sep + join(rest, sep));
        } else {
            assert(join(all, sep) =~= first + sep + join(rest, sep));
        }
    }
}

/// Joining the parts of a text with the separator gives the text.
pub proof fn joining_undoes_splitting(s: Seq<char>, sep: char)
    ensures
        join(crate::text::split(s, sep), seq![sep]) == s,
    decreases s.len(),
{
    crate::text::lemma_first_index_range(s, sep);
    let n = crate::text::first_index(s, sep);
    if n < s.len() {
        let rest = s.skip(n + 1);
        joining_undoes_splitting(rest, sep);
        crate::text::split_parts_hold_no_separator(rest, sep);
        joined_parts_follow_each_other(s.take(n), crate::text::split(rest, sep), seq![sep]);
        assert(s.take(n) + seq![sep] + rest =~= s);
    } else {
        joined_parts_follow_each_other(s, Seq::empty(), seq![sep]);
    }
}

/// A text is filled up with spaces to the width and never shortened, and clipped to the
/// width and never changed otherwise.
pub proof fn texts_are_filled_and_clipped(s: Seq<char>, width: nat)
    ensures
        pad_right(s, width).len() == (if s.len() < width { width } else { s.len() }),
        pad_right(s, width).take(s.len() as int) == s,
        forall|i: int| s.len() <= i < pad_right(s, width).len() ==> #[trigger] pad_right(s, width)[i] == ' ',
        clip(s, width).len() == (if s.len() < width { s.len() } else { width }),
        s.take(clip(s, width).len() as int) == clip(s, width),
{
    assert(pad_right(s, width).take(s.len() as int) =~= s);
    assert(s.take(clip(s, width).len() as int) =~= clip(s, width));
}

} // verus!
