//! Shared text measurement. A headless layout engine cannot query a font
//! engine, so widths are a deterministic per-character approximation tuned to
//! a monospace font. Widths are integer tenths-of-a-pixel to stay exact and
//! platform-independent.

use crate::strs::{chars_of, is_white_space, push_chars, string_of};
use vstd::prelude::*;

verus! {

/// Per-character widths (in tenths of a pixel) plus the horizontal padding a
/// pill/label reserves around its text.
#[derive(Debug, Clone, Copy, PartialEq, Eq, Structural)]
pub struct TextMetrics {
    /// Tenths-of-a-pixel per character for message / edge labels.
    pub label_char_tenths: i32,
    /// Tenths-of-a-pixel per character for heavier node / participant titles.
    pub title_char_tenths: i32,
    /// Tenths-of-a-pixel per character for the dimmed description line.
    pub desc_char_tenths: i32,
    /// Padding added around a measured label (both sides combined).
    pub label_pad: i32,
}

impl Default for TextMetrics {
    /// Labels in 12.5px mono and titles in ~13px mono (~7.8px/char), the
    /// dimmed description at ~11.5px mono (~6px/char).
    fn default() -> (m: TextMetrics)
        ensures
            m == (TextMetrics {
                label_char_tenths: 78,
                title_char_tenths: 80,
                desc_char_tenths: 60,
                label_pad: 14,
            }),
    {
        TextMetrics { label_char_tenths: 78, title_char_tenths: 80, desc_char_tenths: 60, label_pad: 14 }
    }
}

/// `v` clamped into the `i32` range.
pub open spec fn clamp_i32(v: int) -> int {
    if v > i32::MAX {
        i32::MAX as int
    } else if v < i32::MIN {
        i32::MIN as int
    } else {
        v
    }
}

/// Integer division rounding toward zero, as Rust's `/` does.
pub open spec fn div_trunc(a: int, b: int) -> int {
    if a >= 0 {
        a / b
    } else {
        -((-a) / b)
    }
}

/// `count` characters at `tenths` tenths-of-a-pixel each, rounded up to whole
/// pixels: `ceil(count * tenths / 10)`, with the count and the product
/// saturating into `i32`.
pub open spec fn scaled(count: nat, tenths: int) -> int {
    let n = if count > i32::MAX { i32::MAX as int } else { count as int };
    div_trunc(clamp_i32(n * tenths) + 9, 10)
}

/// The rounding step of [`scaled`] stays within `i32`.
pub open spec fn scale_ok(count: nat, tenths: int) -> bool {
    let n = if count > i32::MAX { i32::MAX as int } else { count as int };
    clamp_i32(n * tenths) + 9 <= i32::MAX
}

/// The pill width of a label of `count` characters: its text width plus the
/// padding, and nothing for empty text.
pub open spec fn label_width_of(m: TextMetrics, count: nat) -> int {
    if count == 0 {
        0
    } else {
        scaled(count, m.label_char_tenths as int) + m.label_pad
    }
}

/// [`label_width_of`] is computable within `i32`.
pub open spec fn label_width_ok(m: TextMetrics, count: nat) -> bool {
    count > 0 ==> scale_ok(count, m.label_char_tenths as int) && i32::MIN <= scaled(
        count,
        m.label_char_tenths as int,
    ) + m.label_pad <= i32::MAX
}

/// The whitespace-separated words of `s`, with `cur` the word in progress.
pub open spec fn words_from(s: Seq<char>, cur: Seq<char>) -> Seq<Seq<char>>
    decreases s.len(),
{
    if s.len() == 0 {
        if cur.len() > 0 { seq![cur] } else { seq![] }
    } else if is_white_space(s[0]) {
        (if cur.len() > 0 { seq![cur] } else { seq![] }) + words_from(s.drop_first(), seq![])
    } else {
        words_from(s.drop_first(), cur.push(s[0]))
    }
}

/// The maximal runs of non-white-space characters of `s`, in order.
pub open spec fn words(s: Seq<char>) -> Seq<Seq<char>> {
    words_from(s, seq![])
}

/// Greedy filling of `ws` into lines of at most `max` characters (a word
/// longer than `max` gets a line of its own), `cur` being the line in
/// progress. Words are joined by one space.
pub open spec fn fill_lines(ws: Seq<Seq<char>>, cur: Seq<char>, max: int) -> Seq<Seq<char>>
    decreases ws.len(),
{
    if ws.len() == 0 {
        if cur.len() > 0 { seq![cur] } else { seq![] }
    } else if cur.len() == 0 {
        fill_lines(ws.drop_first(), cur + ws[0], max)
    } else if cur.len() + 1 + ws[0].len() <= max {
        fill_lines(ws.drop_first(), cur.push(' ') + ws[0], max)
    } else {
        seq![cur] + fill_lines(ws.drop_first(), ws[0], max)
    }
}

/// The character budget of a line `width_px` wide at `tenths` per character:
/// at least one.
pub open spec fn line_budget(width_px: int, tenths: int) -> int {
    let w = if width_px < 0 { 0 } else { width_px };
    let t = if tenths < 1 { 1 } else { tenths };
    let c = clamp_i32(w * 10) / t;
    if c < 1 { 1 } else { c }
}

/// The last kept line on overflow: cut to `budget` characters when longer,
/// then ended with an ellipsis.
pub open spec fn ellipsised(line: Seq<char>, budget: int) -> Seq<char> {
    (if line.len() > budget { line.take(budget) } else { line }).push('\u{2026}')
}

/// The wrapped description: the greedy lines of `text` under `max_chars`,
/// capped at `max_lines`; when lines were dropped, the last kept line is cut
/// to at most `max(max_chars - 1, 1)` characters and ends in an ellipsis.
pub open spec fn wrapped(text: Seq<char>, max_chars: int, max_lines: int) -> Seq<Seq<char>> {
    let all = fill_lines(words(text), seq![], max_chars);
    let kept = if all.len() > max_lines { all.take(max_lines) } else { all };
    let budget = if max_chars - 1 < 1 { 1 } else { max_chars - 1 };
    if all.len() > max_lines && kept.len() > 0 {
        kept.update(kept.len() - 1, ellipsised(kept.last(), budget))
    } else {
        kept
    }
}

/// `ceil(count * tenths / 10)`, with `count` and the product saturating into
/// `i32`.
fn scale(count: usize, tenths: i32) -> (r: i32)
    requires
        scale_ok(count as nat, tenths as int),
    ensures
        r == scaled(count as nat, tenths as int),
{
    let n: i32 = if count <= 2147483647usize { count as i32 } else { i32::MAX };
    assert(n >= 0);
    let p: i32 = match n.checked_mul(tenths) {
        Some(v) => v,
        None => {
            if tenths >= 0 {
                assert(n * tenths >= 0) by (nonlinear_arith)
                    requires
                        n >= 0,
                        tenths >= 0,
                ;
                i32::MAX
            } else {
                assert(n * tenths <= 0) by (nonlinear_arith)
                    requires
                        n >= 0,
                        tenths < 0,
                ;
                i32::MIN
            }
        },
    };
    assert(p == clamp_i32(n * tenths));
    let q = p + 9;
    if q >= 0 {
        q / 10
    } else {
        let neg = -q;
        -(neg / 10)
    }
}

/// The characters of each line in `ls`.
pub open spec fn char_lines(ls: Seq<Vec<char>>) -> Seq<Seq<char>> {
    ls.map_values(|l: Vec<char>| l@)
}

/// Whether `c` is Unicode white space (std's `char::is_whitespace`).
fn is_space(c: char) -> (r: bool)
    ensures
        r == is_white_space(c),
{
    c == '\u{09}' || c == '\u{0A}' || c == '\u{0B}' || c == '\u{0C}' || c == '\u{0D}' || c
        == '\u{20}' || c == '\u{85}' || c == '\u{A0}' || c == '\u{1680}' || ('\u{2000}' <= c && c
        <= '\u{200A}') || c == '\u{2028}' || c == '\u{2029}' || c == '\u{202F}' || c == '\u{205F}'
        || c == '\u{3000}'
}

/// The words of `chars`, as [`words`] describes them.
fn split_words(chars: &Vec<char>) -> (ws: Vec<Vec<char>>)
    ensures
        char_lines(ws@) == words(chars@),
{
    let mut ws: Vec<Vec<char>> = Vec::new();
    let mut cur: Vec<char> = Vec::new();
    let mut i: usize = 0;
    assert(chars@.skip(0) =~= chars@);
    while i < chars.len()
        invariant
            i <= chars@.len(),
            words(chars@) == char_lines(ws@) + words_from(chars@.skip(i as int), cur@),
        decreases chars@.len() - i,
    {
        let c = chars[i];
        let ghost rest = chars@.skip(i as int);
        assert(rest[0] == c);
        assert(rest.drop_first() =~= chars@.skip(i + 1));
        if is_space(c) {
            let ghost tail = words_from(chars@.skip(i + 1), seq![]);
            if cur.len() > 0 {
                let ghost before = char_lines(ws@);
                let ghost cv = cur@;
                ws.push(cur);
                assert(char_lines(ws@) =~= before.push(cv));
                assert(before + (seq![cv] + tail) =~= before.push(cv) + tail);
                cur = Vec::new();
            } else {
                assert(seq![] + tail =~= tail);
            }
            assert(cur@ =~= seq![]);
        } else {
            cur.push(c);
        }
        i = i + 1;
    }
    assert(chars@.skip(i as int) =~= seq![]);
    if cur.len() > 0 {
        let ghost before = char_lines(ws@);
        let ghost cv = cur@;
        ws.push(cur);
        assert(char_lines(ws@) =~= before.push(cv));
        assert(before + seq![cv] =~= before.push(cv));
    } else {
        assert(char_lines(ws@) + seq![] =~= char_lines(ws@));
    }
    ws
}

/// The characters of each string in `ls`.
pub open spec fn string_lines(ls: Seq<String>) -> Seq<Seq<char>> {
    ls.map_values(|l: String| l@)
}

/// The first `n` characters of `cs`.
fn take_chars(cs: &Vec<char>, n: usize) -> (r: Vec<char>)
    requires
        n <= cs@.len(),
    ensures
        r@ == cs@.take(n as int),
{
    let mut r: Vec<char> = Vec::new();
    let mut k: usize = 0;
    while k < n
        invariant
            k <= n <= cs@.len(),
            r@ == cs@.take(k as int),
        decreases n - k,
    {
        r.push(cs[k]);
        k = k + 1;
        assert(r@ =~= cs@.take(k as int));
    }
    r
}

impl TextMetrics {
    /// The pill width a label occupies: text width plus padding. Empty text
    /// occupies nothing.
    pub fn label_width(&self, text: &str) -> (w: i32)
        requires
            label_width_ok(*self, text@.len()),
        ensures
            w == label_width_of(*self, text@.len()),
    {
        let count = text.unicode_len();
        if count == 0 {
            0
        } else {
            scale(count, self.label_char_tenths) + self.label_pad
        }
    }

    /// The bare width a title's text occupies (no padding).
    pub fn title_width(&self, text: &str) -> (w: i32)
        requires
            scale_ok(text@.len(), self.title_char_tenths as int),
        ensures
            w == scaled(text@.len(), self.title_char_tenths as int),
    {
        scale(text.unicode_len(), self.title_char_tenths)
    }

    /// Greedily word-wraps a description into at most `max_lines` lines that
    /// each fit `width_px` at the description font, appending an ellipsis to
    /// the last line on overflow. Pure and deterministic, so a card's height
    /// (line count) and its drawn text agree.
    pub fn wrap_desc(&self, text: &str, width_px: i32, max_lines: usize) -> (lines: Vec<String>)
        ensures
            string_lines(lines@) == wrapped(
                text@,
                line_budget(width_px as int, self.desc_char_tenths as int),
                max_lines as int,
            ),
    {
        // Char budget from the available width; at least one char so a
        // degenerate width still makes progress.
        let w: i32 = if width_px < 0 { 0 } else { width_px };
        let t: i32 = if self.desc_char_tenths < 1 { 1 } else { self.desc_char_tenths };
        let wm: i32 = match w.checked_mul(10) {
            Some(v) => v,
            None => i32::MAX,
        };
        let c: i32 = wm / t;
        let max_chars: usize = if c < 1 { 1 } else { c as usize };
        let ghost mc = max_chars as int;
        assert(mc == line_budget(width_px as int, self.desc_char_tenths as int));
        let chars = chars_of(text);
        let ws = split_words(&chars);
        let lines = fill(&ws, max_chars);
        let lines = cap(lines, max_chars, max_lines);
        to_strings(&lines)
    }
}

/// Greedy filling of the words `ws` into lines of at most `max_chars`
/// characters, as [`fill_lines`] describes it.
fn fill(ws: &Vec<Vec<char>>, max_chars: usize) -> (lines: Vec<Vec<char>>)
    requires
        max_chars >= 1,
    ensures
        char_lines(lines@) == fill_lines(char_lines(ws@), seq![], max_chars as int),
{
    let ghost mc = max_chars as int;
    let ghost all_words = char_lines(ws@);
    let mut lines: Vec<Vec<char>> = Vec::new();
    let mut current: Vec<char> = Vec::new();
    let mut i: usize = 0;
    assert(all_words.skip(0) =~= all_words);
    while i < ws.len()
        invariant
            i <= ws@.len(),
            all_words == char_lines(ws@),
            mc == max_chars,
            max_chars >= 1,
            fill_lines(all_words, seq![], mc) == char_lines(lines@) + fill_lines(
                all_words.skip(i as int),
                current@,
                mc,
            ),
        decreases ws@.len() - i,
    {
        let word = &ws[i];
        let ghost rest = all_words.skip(i as int);
        assert(rest[0] == word@);
        assert(rest.drop_first() =~= all_words.skip(i + 1));
        let fits = current.len() == 0 || (current.len() < max_chars && word.len() <= max_chars
            - current.len() - 1);
        if fits {
            if current.len() > 0 {
                current.push(' ');
            }
            push_chars(&mut current, word);
        } else {
            let ghost before = char_lines(lines@);
            let ghost cv = current@;
            lines.push(current);
            assert(char_lines(lines@) =~= before.push(cv));
            current = Vec::new();
            push_chars(&mut current, word);
            assert(current@ =~= word@);
            assert(before + (seq![cv] + fill_lines(all_words.skip(i + 1), word@, mc))
                =~= before.push(cv) + fill_lines(all_words.skip(i + 1), word@, mc));
        }
        i = i + 1;
    }
    assert(all_words.skip(i as int) =~= seq![]);
    if current.len() > 0 {
        let ghost before = char_lines(lines@);
        let ghost cv = current@;
        lines.push(current);
        assert(char_lines(lines@) =~= before.push(cv));
        assert(before + seq![cv] =~= before.push(cv));
    } else {
        assert(char_lines(lines@) + seq![] =~= char_lines(lines@));
    }
    lines
}

/// Caps `lines` at `max_lines`, cutting the last kept line to the budget and
/// ending it in an ellipsis when lines were dropped.
fn cap(lines: Vec<Vec<char>>, max_chars: usize, max_lines: usize) -> (out: Vec<Vec<char>>)
    requires
        max_chars >= 1,
    ensures
        ({
            let all = char_lines(lines@);
            let kept = if all.len() > max_lines { all.take(max_lines as int) } else { all };
            let budget = if max_chars - 1 < 1 { 1 } else { max_chars - 1 };
            char_lines(out@) == if all.len() > max_lines && kept.len() > 0 {
                kept.update(kept.len() - 1, ellipsised(kept.last(), budget))
            } else {
                kept
            }
        }),
{
    let ghost all = char_lines(lines@);
    let mut lines = lines;
    let overflow = lines.len() > max_lines;
    lines.truncate(max_lines);
    assert(char_lines(lines@) =~= if overflow { all.take(max_lines as int) } else { all });
    if overflow && lines.len() > 0 {
        let budget: usize = if max_chars - 1 < 1 { 1 } else { max_chars - 1 };
        let ghost kept = char_lines(lines@);
        let ghost prefix = lines@.drop_last();
        let last = lines.pop().unwrap();
        let mut cut = if last.len() > budget {
            take_chars(&last, budget)
        } else {
            last
        };
        cut.push('\u{2026}');
        lines.push(cut);
        assert(char_lines(lines@) =~= kept.update(kept.len() - 1, ellipsised(kept.last(), budget as int)));
    }
    lines
}

/// Each line as a string.
fn to_strings(lines: &Vec<Vec<char>>) -> (out: Vec<String>)
    ensures
        string_lines(out@) == char_lines(lines@),
{
    let mut out: Vec<String> = Vec::new();
    let mut k: usize = 0;
    while k < lines.len()
        invariant
            k <= lines@.len(),
            string_lines(out@) == char_lines(lines@).take(k as int),
        decreases lines@.len() - k,
    {
        let ghost before = string_lines(out@);
        out.push(string_of(&lines[k]));
        assert(string_lines(out@) =~= before.push(lines@[k as int]@));
        k = k + 1;
        assert(string_lines(out@) =~= char_lines(lines@).take(k as int));
    }
    assert(string_lines(out@) =~= char_lines(lines@));
    out
}

/// A line that fits `max` characters or is a single word (has no space).
pub open spec fn fits_or_word(line: Seq<char>, max: int) -> bool {
    line.len() <= max || forall|j: int| 0 <= j < line.len() ==> line[j] != ' '
}

/// A non-empty run of non-white-space characters.
pub open spec fn is_word(w: Seq<char>) -> bool {
    w.len() > 0 && forall|j: int| 0 <= j < w.len() ==> !is_white_space(#[trigger] w[j])
}

/// The words of a string are non-empty and hold no white space.
proof fn lemma_words_from(s: Seq<char>, cur: Seq<char>)
    requires
        forall|j: int| 0 <= j < cur.len() ==> !is_white_space(#[trigger] cur[j]),
    ensures
        forall|i: int| 0 <= i < words_from(s, cur).len() ==> is_word(#[trigger] words_from(s, cur)[i]),
    decreases s.len(),
{
    if s.len() == 0 {
        if cur.len() > 0 {
            assert(is_word(cur));
            assert(words_from(s, cur) =~= seq![cur]);
        } else {
            assert(words_from(s, cur) =~= Seq::<Seq<char>>::empty());
        }
    } else if is_white_space(s[0]) {
        lemma_words_from(s.drop_first(), seq![]);
        let head: Seq<Seq<char>> = if cur.len() > 0 { seq![cur] } else { seq![] };
        let rest = words_from(s.drop_first(), seq![]);
        assert forall|i: int| 0 <= i < (head + rest).len() implies is_word(#[trigger] (head + rest)[i]) by {
            if i >= head.len() {
                assert((head + rest)[i] == rest[i - head.len()]);
            } else {
                assert(is_word(cur));
            }
        }
        assert(words_from(s, cur) == head + rest);
    } else {
        let c2 = cur.push(s[0]);
        assert forall|j: int| 0 <= j < c2.len() implies !is_white_space(#[trigger] c2[j]) by {
            if j < cur.len() {
                assert(c2[j] == cur[j]);
            }
        }
        lemma_words_from(s.drop_first(), c2);
        assert(words_from(s, cur) == words_from(s.drop_first(), c2));
    }
}

/// Greedy filling yields non-empty lines that start with a word and each
/// fit or hold a single word.
proof fn lemma_fill_lines(ws: Seq<Seq<char>>, cur: Seq<char>, max: int)
    requires
        forall|i: int| 0 <= i < ws.len() ==> is_word(#[trigger] ws[i]),
        cur.len() > 0 ==> !is_white_space(cur[0]),
        fits_or_word(cur, max),
    ensures
        forall|i: int|
            0 <= i < fill_lines(ws, cur, max).len() ==> {
                let l = #[trigger] fill_lines(ws, cur, max)[i];
                l.len() > 0 && !is_white_space(l[0]) && fits_or_word(l, max)
            },
    decreases ws.len(),
{
    if ws.len() == 0 {
        if cur.len() > 0 {
            assert(fill_lines(ws, cur, max) =~= seq![cur]);
        }
    } else {
        let w = ws[0];
        let rest = ws.drop_first();
        assert forall|i: int| 0 <= i < rest.len() implies is_word(#[trigger] rest[i]) by {
            assert(rest[i] == ws[i + 1]);
        }
        assert(is_word(w));
        assert(w[0] != ' ');
        if cur.len() == 0 {
            assert(cur + w =~= w);
            assert forall|j: int| 0 <= j < w.len() implies w[j] != ' ' by {
                assert(!is_white_space(w[j]));
            }
            lemma_fill_lines(rest, w, max);
            assert(fill_lines(ws, cur, max) == fill_lines(rest, w, max));
        } else if cur.len() + 1 + w.len() <= max {
            let c2 = cur.push(' ') + w;
            assert(c2[0] == cur[0]);
            lemma_fill_lines(rest, c2, max);
            assert(fill_lines(ws, cur, max) == fill_lines(rest, c2, max));
        } else {
            assert forall|j: int| 0 <= j < w.len() implies w[j] != ' ' by {
                assert(!is_white_space(w[j]));
            }
            lemma_fill_lines(rest, w, max);
            let tail = fill_lines(rest, w, max);
            assert(fill_lines(ws, cur, max) == seq![cur] + tail);
            assert forall|i: int| 0 <= i < (seq![cur] + tail).len() implies {
                let l = #[trigger] (seq![cur] + tail)[i];
                l.len() > 0 && !is_white_space(l[0]) && fits_or_word(l, max)
            } by {
                if i > 0 {
                    assert((seq![cur] + tail)[i] == tail[i - 1]);
                }
            }
        }
    }
}

/// A wrapped description has at most `max_lines` lines, none of them
/// blank, and each line fits the character budget unless it is a single
/// word too long for any line.
pub proof fn law_wrapped_fits(text: Seq<char>, max_chars: int, max_lines: int)
    requires
        max_chars >= 1,
        max_lines >= 0,
    ensures
        wrapped(text, max_chars, max_lines).len() <= max_lines,
        forall|i: int|
            0 <= i < wrapped(text, max_chars, max_lines).len() ==> fits_or_word(
                #[trigger] wrapped(text, max_chars, max_lines)[i],
                max_chars,
            ) && wrapped(text, max_chars, max_lines)[i].len() > 0,
{
    lemma_words_from(text, seq![]);
    lemma_fill_lines(words(text), seq![], max_chars);
    let all = fill_lines(words(text), seq![], max_chars);
    let kept = if all.len() > max_lines { all.take(max_lines) } else { all };
    let budget = if max_chars - 1 < 1 { 1 } else { max_chars - 1 };
    assert forall|i: int| 0 <= i < kept.len() implies {
        let l = #[trigger] kept[i];
        l.len() > 0 && !is_white_space(l[0]) && fits_or_word(l, max_chars)
    } by {
        assert(kept[i] == all[i]);
    }
    if all.len() > max_lines && kept.len() > 0 {
        let last = kept.last();
        let e = ellipsised(last, budget);
        assert(kept[kept.len() - 1] == last);
        if max_chars == 1 && last.len() > budget {
            assert(e[0] == last[0]);
            assert(e[1] == '\u{2026}');
            assert(e.len() == 2);
            assert forall|j: int| 0 <= j < e.len() implies e[j] != ' ' by {
                if j == 0 {
                    assert(!is_white_space(last[0]));
                }
            }
        }
        assert(fits_or_word(e, max_chars));
    }
}

/// The words of each line, line after line.
pub open spec fn flat_words(lines: Seq<Seq<char>>) -> Seq<Seq<char>>
    decreases lines.len(),
{
    if lines.len() == 0 {
        seq![]
    } else {
        words(lines[0]) + flat_words(lines.drop_first())
    }
}

/// A white-space character splits the words of a string in two.
proof fn lemma_words_split(s1: Seq<char>, c: char, s2: Seq<char>, cur: Seq<char>)
    requires
        is_white_space(c),
    ensures
        words_from(s1 + seq![c] + s2, cur) == words_from(s1, cur) + words_from(s2, seq![]),
    decreases s1.len(),
{
    let t = s1 + seq![c] + s2;
    if s1.len() == 0 {
        assert(t =~= seq![c] + s2);
        assert(t.drop_first() =~= s2);
        let head: Seq<Seq<char>> = if cur.len() > 0 { seq![cur] } else { seq![] };
        assert(words_from(s1, cur) == head);
    } else {
        assert(t[0] == s1[0]);
        assert(t.drop_first() =~= s1.drop_first() + seq![c] + s2);
        if is_white_space(s1[0]) {
            lemma_words_split(s1.drop_first(), c, s2, seq![]);
            let head: Seq<Seq<char>> = if cur.len() > 0 { seq![cur] } else { seq![] };
            assert(head + words_from(s1.drop_first(), seq![]) + words_from(s2, seq![]) =~= head + (words_from(
                s1.drop_first(),
                seq![],
            ) + words_from(s2, seq![])));
        } else {
            lemma_words_split(s1.drop_first(), c, s2, cur.push(s1[0]));
        }
    }
}

/// A run without white space after `cur` makes one word.
proof fn lemma_words_of_word(w: Seq<char>, cur: Seq<char>)
    requires
        forall|j: int| 0 <= j < w.len() ==> !is_white_space(#[trigger] w[j]),
        cur.len() + w.len() > 0,
    ensures
        words_from(w, cur) == seq![cur + w],
    decreases w.len(),
{
    if w.len() == 0 {
        assert(cur + w =~= cur);
    } else {
        assert(!is_white_space(w[0]));
        assert forall|j: int| 0 <= j < w.drop_first().len() implies !is_white_space(#[trigger] w.drop_first()[j]) by {
            assert(w.drop_first()[j] == w[j + 1]);
        }
        lemma_words_of_word(w.drop_first(), cur.push(w[0]));
        assert(cur.push(w[0]) + w.drop_first() =~= cur + w);
    }
}

/// Greedy filling keeps every word, in order.
proof fn lemma_fill_keeps_words(ws: Seq<Seq<char>>, cur: Seq<char>, max: int)
    requires
        forall|i: int| 0 <= i < ws.len() ==> is_word(#[trigger] ws[i]),
    ensures
        flat_words(fill_lines(ws, cur, max)) == words(cur) + ws,
    decreases ws.len(),
{
    if ws.len() == 0 {
        if cur.len() > 0 {
            assert(fill_lines(ws, cur, max) =~= seq![cur]);
            assert(flat_words(seq![cur]) =~= words(cur) + flat_words(seq![cur].drop_first()));
            assert(seq![cur].drop_first() =~= Seq::<Seq<char>>::empty());
        } else {
            assert(fill_lines(ws, cur, max) =~= Seq::<Seq<char>>::empty());
            assert(words(cur) =~= Seq::<Seq<char>>::empty());
        }
        assert(words(cur) + ws =~= words(cur));
    } else {
        let w = ws[0];
        let rest = ws.drop_first();
        assert forall|i: int| 0 <= i < rest.len() implies is_word(#[trigger] rest[i]) by {
            assert(rest[i] == ws[i + 1]);
        }
        assert(is_word(w));
        lemma_words_of_word(w, seq![]);
        assert(seq![] + w =~= w);
        assert(words(w) == seq![w]);
        if cur.len() == 0 {
            assert(cur + w =~= w);
            lemma_fill_keeps_words(rest, w, max);
            assert(fill_lines(ws, cur, max) == fill_lines(rest, w, max));
            assert(words(cur) =~= Seq::<Seq<char>>::empty());
            assert(seq![w] + rest =~= ws);
            assert(words(cur) + ws =~= seq![w] + rest);
        } else if cur.len() + 1 + w.len() <= max {
            let c2 = cur.push(' ') + w;
            lemma_fill_keeps_words(rest, c2, max);
            assert(fill_lines(ws, cur, max) == fill_lines(rest, c2, max));
            assert(c2 =~= cur + seq![' '] + w);
            lemma_words_split(cur, ' ', w, seq![]);
            assert(words(c2) == words(cur) + seq![w]);
            assert(words(cur) + seq![w] + rest =~= words(cur) + ws);
        } else {
            lemma_fill_keeps_words(rest, w, max);
            let tail = fill_lines(rest, w, max);
            assert(fill_lines(ws, cur, max) == seq![cur] + tail);
            assert((seq![cur] + tail)[0] == cur);
            assert((seq![cur] + tail).drop_first() =~= tail);
            assert(words(cur) + (seq![w] + rest) =~= words(cur) + ws);
        }
    }
}

/// When no line is dropped, wrapping keeps every word of the text, in
/// order: the lines' words, line after line, are the text's words.
pub proof fn law_wrapped_keeps_words(text: Seq<char>, max_chars: int, max_lines: int)
    requires
        fill_lines(words(text), seq![], max_chars).len() <= max_lines,
    ensures
        flat_words(wrapped(text, max_chars, max_lines)) == words(text),
{
    lemma_words_from(text, seq![]);
    lemma_fill_keeps_words(words(text), seq![], max_chars);
    assert(words(Seq::<char>::empty()) =~= Seq::<Seq<char>>::empty());
    assert(Seq::<Seq<char>>::empty() + words(text) =~= words(text));
}

} // verus!
