//! Web text: percent escapes, HTML reduced to plain text, and search pages.

use vstd::prelude::*;
use vstd::slice::slice_subrange;
use vstd::utf8::{
    decode_utf8, encode_utf8, encode_utf8_decode_utf8, encode_utf8_valid_utf8, is_ascii_chars,
    is_ascii_chars_encode_utf8, is_continuation_byte, valid_utf8,
};
use crate::text::{
    chars_of, cut_blocks, find, find_char, first, join, joined, law_words_hold_no_blank,
    lemma_cut_blocks, lemma_first_from, lemma_has, lines, lines_of, lowered, mentions, occurs_at,
    remove_blocks, replaced, split_words, swap_text, text_of, trim, trimmed, views, words,
};

verus! {

// ---------------------------------------------------------------------------
// Text out of bytes

/// The text that `String::from_utf8_lossy` gives for bytes that are not valid
/// UTF-8.
pub uninterp spec fn utf8_repaired(bytes: Seq<u8>) -> Seq<char>;

/// The text of a run of bytes, repaired where they are not valid UTF-8.
pub open spec fn lossy(bytes: Seq<u8>) -> Seq<char> {
    if valid_utf8(bytes) {
        decode_utf8(bytes)
    } else {
        utf8_repaired(bytes)
    }
}

/// `String::from_utf8_lossy`: the decoded text where the bytes are valid UTF-8,
/// and a text that depends on the bytes alone where they are not.
#[verifier::external_body]
fn utf8_lossy(bytes: &[u8]) -> (r: String)
    ensures
        r@ == if valid_utf8(bytes@) {
            decode_utf8(bytes@)
        } else {
            utf8_repaired(bytes@)
        },
{
    String::from_utf8_lossy(bytes).into_owned()
}

/// The text of a run of bytes, repaired where they are not valid UTF-8.
pub fn lossy_text(bytes: &[u8]) -> (r: String)
    ensures
        r@ == lossy(bytes@),
{
    utf8_lossy(bytes)
}

// ---------------------------------------------------------------------------
// Percent escapes

/// Whether a byte stands for itself in an escaped text: a letter, a digit, or
/// one of `-`, `_`, `.` and `~`.
pub open spec fn unreserved(b: u8) -> bool {
    ||| 48 <= b <= 57
    ||| 65 <= b <= 90
    ||| 97 <= b <= 122
    ||| b == 45
    ||| b == 95
    ||| b == 46
    ||| b == 126
}

pub open spec fn hex_char(d: int) -> char {
    if d < 10 {
        (48 + d) as char
    } else {
        (55 + d) as char
    }
}

pub open spec fn escaped_byte(b: u8) -> Seq<char> {
    if unreserved(b) {
        seq![b as char]
    } else {
        seq!['%', hex_char(b as int / 16), hex_char(b as int % 16)]
    }
}

/// A run of bytes, each that is not unreserved written as `%` and two digits.
pub open spec fn escaped(bytes: Seq<u8>) -> Seq<char>
    decreases bytes.len(),
{
    if bytes.len() == 0 {
        seq![]
    } else {
        escaped_byte(bytes[0]) + escaped(bytes.skip(1))
    }
}

fn hex_of(d: u8) -> (r: char)
    requires
        d < 16,
    ensures
        r == hex_char(d as int),
{
    if d < 10 {
        (48 + d) as char
    } else {
        (55 + d) as char
    }
}

/// Escapes a text for use in a URL.
pub fn urlencode(s: &str) -> (r: String)
    ensures
        r@ == escaped(encode_utf8(s@)),
{
    let bytes = s.as_bytes();
    let mut out: String = String::new();
    let mut i: usize = 0;
    assert(bytes@.skip(0) =~= bytes@);
    assert(out@ + escaped(bytes@) =~= escaped(bytes@));
    while i < bytes.len()
        invariant
            i <= bytes.len(),
            escaped(bytes@) == out@ + escaped(bytes@.skip(i as int)),
        decreases bytes.len() - i,
    {
        let b: u8 = bytes[i];
        let ghost before = out@;
        if (48 <= b && b <= 57) || (65 <= b && b <= 90) || (97 <= b && b <= 122) || b == 45 || b
            == 95 || b == 46 || b == 126 {
            out.push(b as char);
        } else {
            out.push('%');
            out.push(hex_of(b / 16));
            out.push(hex_of(b % 16));
        }
        assert(out@ =~= before + escaped_byte(b));
        assert(bytes@.skip(i as int).skip(1) =~= bytes@.skip(i + 1));
        assert(before + (escaped_byte(b) + escaped(bytes@.skip(i + 1))) =~= out@ + escaped(
            bytes@.skip(i + 1),
        ));
        i += 1;
    }
    assert(out@ + escaped(bytes@.skip(i as int)) =~= out@);
    out
}

/// The value of a byte as a hexadecimal digit.
pub open spec fn hex_value(b: u8) -> Option<int> {
    if 48 <= b <= 57 {
        Some(b - 48)
    } else if 65 <= b <= 70 {
        Some(b - 55)
    } else if 97 <= b <= 102 {
        Some(b - 87)
    } else {
        None
    }
}

/// The byte that two characters write in hexadecimal; the first may be a plus
/// sign.
pub open spec fn hex_pair(a: u8, b: u8) -> Option<int> {
    match (hex_value(a), hex_value(b)) {
        (Some(x), Some(y)) => Some(16 * x + y),
        (None, Some(y)) => if a == 43 {
            Some(y)
        } else {
            None
        },
        _ => None,
    }
}

/// A run of bytes with its escapes undone and each plus sign as a space.
pub open spec fn unescaped(bytes: Seq<u8>) -> Seq<u8>
    decreases bytes.len(),
{
    if bytes.len() == 0 {
        seq![]
    } else if bytes[0] == 37 && bytes.len() > 2 && hex_pair(bytes[1], bytes[2]) is Some {
        seq![hex_pair(bytes[1], bytes[2])->0 as u8] + unescaped(bytes.skip(3))
    } else if bytes[0] == 43 {
        seq![32u8] + unescaped(bytes.skip(1))
    } else {
        seq![bytes[0]] + unescaped(bytes.skip(1))
    }
}

/// Whether the two bytes after each `%` end at the end of a character.
pub open spec fn percent_safe(bytes: Seq<u8>) -> bool {
    forall|i: int|
        0 <= i && i + 3 < bytes.len() && #[trigger] bytes[i] == 37 ==> !is_continuation_byte(
            bytes[i + 3],
        )
}

/// The text that an escaped text stands for.
pub open spec fn decoded(s: Seq<char>) -> Seq<char> {
    lossy(unescaped(encode_utf8(s)))
}

fn hex_digit(b: u8) -> (r: Option<u8>)
    ensures
        match r {
            Some(d) => hex_value(b) == Some(d as int) && d < 16,
            None => hex_value(b) is None,
        },
{
    if 48 <= b && b <= 57 {
        Some(b - 48)
    } else if 65 <= b && b <= 70 {
        Some(b - 55)
    } else if 97 <= b && b <= 102 {
        Some(b - 87)
    } else {
        None
    }
}

fn hex_byte(a: u8, b: u8) -> (r: Option<u8>)
    ensures
        match r {
            Some(d) => hex_pair(a, b) == Some(d as int),
            None => hex_pair(a, b) is None,
        },
{
    match hex_digit(b) {
        Some(y) => match hex_digit(a) {
            Some(x) => Some(16 * x + y),
            None => if a == 43 {
                Some(y)
            } else {
                None
            },
        },
        None => None,
    }
}

/// Whether the two bytes after each `%` of a text end at the end of a
/// character.
pub fn is_percent_safe(s: &str) -> (r: bool)
    ensures
        r == percent_safe(encode_utf8(s@)),
{
    let bytes = s.as_bytes();
    let mut i: usize = 0;
    while i < bytes.len()
        invariant
            bytes@ == encode_utf8(s@),
            i <= bytes.len(),
            forall|k: int|
                0 <= k < i && k + 3 < bytes.len() && #[trigger] bytes@[k] == 37
                    ==> !is_continuation_byte(bytes@[k + 3]),
        decreases bytes.len() - i,
    {
        if bytes[i] == 37 && bytes.len() - i > 3 {
            let b: u8 = bytes[i + 3];
            if 0x80 <= b && b <= 0xbf {
                assert(bytes@[i as int] == 37 && is_continuation_byte(bytes@[i + 3]));
                return false;
            }
        }
        i += 1;
    }
    true
}

/// Undoes the escapes of a URL.
pub fn urldecode(s: &str) -> (r: String)
    requires
        percent_safe(encode_utf8(s@)),
    ensures
        r@ == decoded(s@),
{
    let bytes = s.as_bytes();
    let mut out: Vec<u8> = Vec::new();
    let mut i: usize = 0;
    assert(bytes@.skip(0) =~= bytes@);
    assert(out@ + unescaped(bytes@) =~= unescaped(bytes@));
    while i < bytes.len()
        invariant
            i <= bytes.len(),
            unescaped(bytes@) == out@ + unescaped(bytes@.skip(i as int)),
        decreases bytes.len() - i,
    {
        let b: u8 = bytes[i];
        let ghost before = out@;
        let ghost rest = bytes@.skip(i as int);
        if b == 37 && bytes.len() - i > 2 {
            match hex_byte(bytes[i + 1], bytes[i + 2]) {
                Some(v) => {
                    out.push(v);
                    assert(rest.skip(3) =~= bytes@.skip(i + 3));
                    assert(before + (seq![v] + unescaped(bytes@.skip(i + 3))) =~= out@ + unescaped(
                        bytes@.skip(i + 3),
                    ));
                    i += 3;
                    continue ;
                },
                None => {},
            }
        }
        assert(rest.skip(1) =~= bytes@.skip(i + 1));
        if b == 43 {
            out.push(32);
            assert(before + (seq![32u8] + unescaped(bytes@.skip(i + 1))) =~= out@ + unescaped(
                bytes@.skip(i + 1),
            ));
        } else {
            out.push(b);
            assert(before + (seq![b] + unescaped(bytes@.skip(i + 1))) =~= out@ + unescaped(
                bytes@.skip(i + 1),
            ));
        }
        i += 1;
    }
    assert(out@ + unescaped(bytes@.skip(i as int)) =~= out@);
    lossy_text(out.as_slice())
}

proof fn lemma_escaped_is_ascii(bytes: Seq<u8>)
    ensures
        is_ascii_chars(escaped(bytes)),
    decreases bytes.len(),
{
    if bytes.len() > 0 {
        lemma_escaped_is_ascii(bytes.skip(1));
    }
}

/// The bytes of an ASCII text.
spec fn ascii_bytes(s: Seq<char>) -> Seq<u8> {
    Seq::new(s.len(), |i: int| s[i] as u8)
}

proof fn lemma_unescaped_escaped(bytes: Seq<u8>)
    ensures
        unescaped(ascii_bytes(escaped(bytes))) == bytes,
    decreases bytes.len(),
{
    if bytes.len() > 0 {
        let rest = bytes.skip(1);
        lemma_unescaped_escaped(rest);
        let b = bytes[0];
        let all = ascii_bytes(escaped(bytes));
        let h = escaped_byte(b).len() as int;
        assert(all.skip(h) =~= ascii_bytes(escaped(rest)));
        if unreserved(b) {
            assert(all[0] == b);
            assert(seq![b] + rest =~= bytes);
        } else {
            assert(all[0] == 37);
            let x = b as int / 16;
            let y = b as int % 16;
            assert(all[1] == hex_char(x) as u8);
            assert(all[2] == hex_char(y) as u8);
            assert(hex_value(all[1]) == Some(x));
            assert(hex_value(all[2]) == Some(y));
            assert(seq![b] + rest =~= bytes);
        }
    } else {
        assert(ascii_bytes(escaped(bytes)) =~= seq![]);
        assert(bytes =~= seq![]);
    }
}

proof fn lemma_escaped_is_percent_safe(bytes: Seq<u8>)
    ensures
        percent_safe(ascii_bytes(escaped(bytes))),
{
    lemma_escaped_is_ascii(bytes);
}

/// Undoing the escapes of an escaped text gives the text back, whatever it is.
pub proof fn law_url_round_trip(s: Seq<char>)
    ensures
        percent_safe(encode_utf8(escaped(encode_utf8(s)))),
        decoded(escaped(encode_utf8(s))) == s,
{
    let bytes = encode_utf8(s);
    let e = escaped(bytes);
    lemma_escaped_is_ascii(bytes);
    is_ascii_chars_encode_utf8(e);
    assert(encode_utf8(e) =~= ascii_bytes(e));
    lemma_escaped_is_percent_safe(bytes);
    lemma_unescaped_escaped(bytes);
    encode_utf8_valid_utf8(s);
    encode_utf8_decode_utf8(s);
}

/// An escaped text holds nothing but unreserved characters and escapes.
pub proof fn law_escaped_is_plain(bytes: Seq<u8>, i: int)
    requires
        0 <= i < escaped(bytes).len(),
    ensures
        escaped(bytes)[i] == '%' || ((escaped(bytes)[i] as u32) < 128 && unreserved(
            escaped(bytes)[i] as u8,
        )),
    decreases bytes.len(),
{
    let h = escaped_byte(bytes[0]).len();
    if i >= h {
        law_escaped_is_plain(bytes.skip(1), i - h);
    }
}

// ---------------------------------------------------------------------------
// HTML to text

/// A text without its tags: each `>` leaves a space. `inside` tells whether
/// the text starts inside a tag.
pub open spec fn untagged(s: Seq<char>, inside: bool) -> Seq<char>
    decreases s.len(),
{
    if s.len() == 0 {
        seq![]
    } else if s[0] == '<' {
        untagged(s.skip(1), true)
    } else if s[0] == '>' {
        seq![' '] + untagged(s.skip(1), false)
    } else if inside {
        untagged(s.skip(1), true)
    } else {
        seq![s[0]] + untagged(s.skip(1), false)
    }
}

/// A text with the common entities decoded, one kind after the other.
pub open spec fn without_entities(s: Seq<char>) -> Seq<char> {
    let a = replaced(s, "&amp;"@, "&"@);
    let b = replaced(a, "&lt;"@, "<"@);
    let c = replaced(b, "&gt;"@, ">"@);
    let d = replaced(c, "&quot;"@, "\""@);
    let e = replaced(d, "&#x27;"@, "'"@);
    let f = replaced(e, "&#39;"@, "'"@);
    replaced(f, "&nbsp;"@, " "@)
}

/// A line with one space between each two words.
pub open spec fn collapsed(line: Seq<char>) -> Seq<char> {
    joined(words(line), " "@)
}

/// The lines, collapsed, each ended by a line feed; of lines that are empty in
/// a row only the first stays.
pub open spec fn tidy(lines: Seq<Seq<char>>, after_empty: bool) -> Seq<char>
    decreases lines.len(),
{
    if lines.len() == 0 {
        seq![]
    } else {
        let line = collapsed(lines[0]);
        if line.len() == 0 && after_empty {
            tidy(lines.skip(1), true)
        } else {
            line.push('\n') + tidy(lines.skip(1), line.len() == 0)
        }
    }
}

/// A page without its scripts and style sheets.
pub open spec fn without_scripts(s: Seq<char>) -> Seq<char> {
    cut_blocks(
        cut_blocks(s, "<script"@, "</script>"@, " "@, true),
        "<style"@,
        "</style>"@,
        " "@,
        true,
    )
}

/// The plain text of a page.
pub open spec fn plain(html: Seq<char>) -> Seq<char> {
    trimmed(tidy(lines_of(without_entities(untagged(without_scripts(html), false))), false))
}

fn strip_tags(s: &[char]) -> (r: Vec<char>)
    ensures
        r@ == untagged(s@, false),
{
    let mut out: Vec<char> = Vec::new();
    let mut inside: bool = false;
    let mut i: usize = 0;
    assert(s@.skip(0) =~= s@);
    assert(out@ + untagged(s@, false) =~= untagged(s@, false));
    while i < s.len()
        invariant
            i <= s.len(),
            untagged(s@, false) == out@ + untagged(s@.skip(i as int), inside),
        decreases s.len() - i,
    {
        let ghost before = out@;
        assert(s@.skip(i as int).skip(1) =~= s@.skip(i + 1));
        let c = s[i];
        if c == '<' {
            inside = true;
        } else if c == '>' {
            inside = false;
            out.push(' ');
            assert(before + (seq![' '] + untagged(s@.skip(i + 1), false)) =~= out@ + untagged(
                s@.skip(i + 1),
                false,
            ));
        } else if !inside {
            out.push(c);
            assert(before + (seq![c] + untagged(s@.skip(i + 1), false)) =~= out@ + untagged(
                s@.skip(i + 1),
                false,
            ));
        }
        i += 1;
    }
    assert(out@ + untagged(s@.skip(i as int), inside) =~= out@);
    out
}

fn decode_entities(s: &[char]) -> (r: Vec<char>)
    ensures
        r@ == without_entities(s@),
{
    proof {
        reveal_strlit("&amp;");
        reveal_strlit("&lt;");
        reveal_strlit("&gt;");
        reveal_strlit("&quot;");
        reveal_strlit("&#x27;");
        reveal_strlit("&#39;");
        reveal_strlit("&nbsp;");
    }
    let a = swap_text(s, "&amp;", "&");
    let b = swap_text(a.as_slice(), "&lt;", "<");
    let c = swap_text(b.as_slice(), "&gt;", ">");
    let d = swap_text(c.as_slice(), "&quot;", "\"");
    let e = swap_text(d.as_slice(), "&#x27;", "'");
    let f = swap_text(e.as_slice(), "&#39;", "'");
    swap_text(f.as_slice(), "&nbsp;", " ")
}

fn tidy_lines(lines: &Vec<String>) -> (r: String)
    ensures
        r@ == tidy(views(lines@), false),
{
    let mut out: String = String::new();
    let mut after_empty: bool = false;
    let mut i: usize = 0;
    let ghost all = views(lines@);
    assert(all.skip(0) =~= all);
    assert(out@ + tidy(all, false) =~= tidy(all, false));
    while i < lines.len()
        invariant
            i <= lines.len(),
            all == views(lines@),
            tidy(all, false) == out@ + tidy(all.skip(i as int), after_empty),
        decreases lines.len() - i,
    {
        let v = chars_of(lines[i].as_str());
        let parts = split_words(v.as_slice());
        let line = join(&parts, " ");
        let ghost before = out@;
        let ghost rest = all.skip(i as int);
        assert(rest[0] == lines@[i as int]@);
        assert(rest.skip(1) =~= all.skip(i + 1));
        let empty = line.as_str().is_empty();
        if empty && after_empty {
        } else {
            out.append(line.as_str());
            out.push('\n');
            assert(before + (line@.push('\n') + tidy(all.skip(i + 1), empty)) =~= out@ + tidy(
                all.skip(i + 1),
                empty,
            ));
        }
        after_empty = empty;
        i += 1;
    }
    assert(out@ + tidy(all.skip(i as int), after_empty) =~= out@);
    out
}

fn cut_element(s: &[char], open: &str, close: &str) -> (r: Vec<char>)
    requires
        open@.len() > 1,
        close@.len() > 1,
    ensures
        r@ == cut_blocks(s@, open@, close@, " "@, true),
{
    proof {
        reveal_strlit(" ");
    }
    let a = chars_of(open);
    let b = chars_of(close);
    let fill = chars_of(" ");
    remove_blocks(s, a.as_slice(), b.as_slice(), fill.as_slice(), true)
}

/// Strips scripts, styles and tags; decodes common entities; collapses blanks.
pub fn html_to_text(html: &str) -> (r: String)
    ensures
        r@ == plain(html@),
{
    proof {
        reveal_strlit("<script");
        reveal_strlit("</script>");
        reveal_strlit("<style");
        reveal_strlit("</style>");
    }
    let v = chars_of(html);
    let a = cut_element(v.as_slice(), "<script", "</script>");
    let b = cut_element(a.as_slice(), "<style", "</style>");
    let t = strip_tags(b.as_slice());
    let d = decode_entities(t.as_slice());
    let l = lines(d.as_slice());
    let out = tidy_lines(&l);
    let w = chars_of(out.as_str());
    text_of(trim(w.as_slice()))
}

// ---------------------------------------------------------------------------
// Search pages

/// How many characters come before the first `&` or `"`.
pub open spec fn link_len(s: Seq<char>) -> nat
    decreases s.len(),
{
    if s.len() > 0 && s[0] != '&' && s[0] != '"' {
        1 + link_len(s.skip(1))
    } else {
        0
    }
}

/// The plain text of what stands before the first `end`, or of nothing where
/// there is none.
pub open spec fn plain_until(s: Seq<char>, end: Seq<char>) -> Seq<char> {
    plain(
        s.take(
            match first(s, end) {
                Some(i) => i,
                None => 0,
            },
        ),
    )
}

/// The address that a search link holds.
pub open spec fn link_url(rest: Seq<char>) -> Seq<char> {
    decoded(rest.take(link_len(rest) as int))
}

/// The text of a search link.
pub open spec fn link_title(rest: Seq<char>) -> Seq<char> {
    match first(rest, seq!['>']) {
        Some(i) => plain_until(rest.skip(i + 1), "</a>"@),
        None => seq![],
    }
}

/// The text of the first snippet cell after a search link.
pub open spec fn link_snippet(rest: Seq<char>) -> Seq<char> {
    match first(rest, "result-snippet"@) {
        Some(s) => match first(rest.skip(s), seq!['>']) {
            Some(i) => plain_until(rest.skip(s).skip(i + 1), "</td>"@),
            None => seq![],
        },
        None => seq![],
    }
}

/// The result that a search link gives, where it has an address and a text.
pub open spec fn link_result(rest: Seq<char>) -> Seq<Seq<char>> {
    if link_url(rest).len() > 0 && link_title(rest).len() > 0 {
        seq![link_title(rest) + " — "@ + link_url(rest) + "\n"@ + link_snippet(rest)]
    } else {
        seq![]
    }
}

/// The most results taken from one page.
pub const MAX_RESULTS: usize = 5;

/// The results of a search page, where `found` of them came before it.
pub open spec fn page_results(html: Seq<char>, found: nat) -> Seq<Seq<char>>
    decreases html.len(),
{
    match first(html, "uddg="@) {
        Some(i) => {
            let at = i + "uddg="@.len();
            if 0 <= i && 0 < at <= html.len() {
                let rest = html.skip(at);
                let now = link_result(rest);
                if found + now.len() >= MAX_RESULTS {
                    now
                } else {
                    now + page_results(rest, found + now.len())
                }
            } else {
                seq![]
            }
        },
        None => seq![],
    }
}

/// Whether the escapes in every address that is read from a search page end at
/// the end of a character.
pub open spec fn page_safe(html: Seq<char>, found: nat) -> bool
    decreases html.len(),
{
    match first(html, "uddg="@) {
        Some(i) => {
            let at = i + "uddg="@.len();
            if 0 <= i && 0 < at <= html.len() {
                let rest = html.skip(at);
                &&& percent_safe(encode_utf8(rest.take(link_len(rest) as int)))
                &&& (found + link_result(rest).len() < MAX_RESULTS ==> page_safe(
                    rest,
                    found + link_result(rest).len(),
                ))
            } else {
                true
            }
        },
        None => true,
    }
}

fn link_end(s: &[char]) -> (r: usize)
    ensures
        r == link_len(s@),
        r <= s.len(),
{
    let mut i: usize = 0;
    assert(s@.skip(0) =~= s@);
    while i < s.len() && s[i] != '&' && s[i] != '"'
        invariant
            i <= s.len(),
            link_len(s@) == i + link_len(s@.skip(i as int)),
        decreases s.len() - i,
    {
        assert(s@.skip(i as int).skip(1) =~= s@.skip(i + 1));
        i += 1;
    }
    i
}

fn text_until(s: &[char], end: &str) -> (r: String)
    ensures
        r@ == plain_until(s@, end@),
{
    let e = chars_of(end);
    let n: usize = match find(s, e.as_slice()) {
        Some(i) => i,
        None => 0,
    };
    assert(s@.subrange(0, n as int) =~= s@.take(n as int));
    let part = text_of(slice_subrange(s, 0, n));
    html_to_text(part.as_str())
}

fn title_of(rest: &[char]) -> (r: String)
    ensures
        r@ == link_title(rest@),
{
    match find_char(rest, '>', 0) {
        Some(i) => {
            assert(rest@.subrange(i + 1, rest@.len() as int) =~= rest@.skip(i + 1));
            text_until(slice_subrange(rest, i + 1, rest.len()), "</a>")
        },
        None => {
            let r = String::new();
            assert(r@ =~= seq![]);
            r
        },
    }
}

fn snippet_of(rest: &[char]) -> (r: String)
    ensures
        r@ == link_snippet(rest@),
{
    let p = chars_of("result-snippet");
    let none = String::new();
    assert(none@ =~= seq![]);
    match find(rest, p.as_slice()) {
        Some(s) => {
            let after = slice_subrange(rest, s, rest.len());
            assert(after@ =~= rest@.skip(s as int));
            match find_char(after, '>', 0) {
                Some(i) => {
                    assert(after@.subrange(i + 1, after@.len() as int) =~= after@.skip(i + 1));
                    text_until(slice_subrange(after, i + 1, after.len()), "</td>")
                },
                None => none,
            }
        },
        None => none,
    }
}

fn url_part(rest: &[char]) -> (r: String)
    ensures
        r@ == rest@.take(link_len(rest@) as int),
{
    let n: usize = link_end(rest);
    assert(rest@.subrange(0, n as int) =~= rest@.take(n as int));
    text_of(slice_subrange(rest, 0, n))
}

fn result_of(rest: &[char]) -> (r: Option<String>)
    requires
        percent_safe(encode_utf8(rest@.take(link_len(rest@) as int))),
    ensures
        match r {
            Some(t) => link_result(rest@) == seq![t@],
            None => link_result(rest@) == Seq::<Seq<char>>::empty(),
        },
{
    let part = url_part(rest);
    let url = urldecode(part.as_str());
    let title = title_of(rest);
    let snippet = snippet_of(rest);
    if !url.as_str().is_empty() && !title.as_str().is_empty() {
        let mut t: String = title;
        t.append(" — ");
        t.append(url.as_str());
        t.append("\n");
        t.append(snippet.as_str());
        Some(t)
    } else {
        None
    }
}

/// Whether a search page can be read: the escapes in every address that is
/// taken from it end at the end of a character.
pub fn is_page_safe(html: &str) -> (r: bool)
    ensures
        r == page_safe(html@, 0),
{
    let v = chars_of(html);
    let mark = chars_of("uddg=");
    let mut pos: usize = 0;
    let mut found: usize = 0;
    proof {
        reveal_strlit("uddg=");
    }
    assert(v@.skip(0) =~= v@);
    loop
        invariant
            pos <= v.len(),
            found < MAX_RESULTS,
            mark@ == "uddg="@,
            mark@.len() == 5,
            page_safe(v@, 0) == page_safe(v@.skip(pos as int), found as nat),
            v@ == html@,
        decreases v.len() - pos,
    {
        let rest = slice_subrange(v.as_slice(), pos, v.len());
        assert(rest@ =~= v@.skip(pos as int));
        match find(rest, mark.as_slice()) {
            Some(i) => {
                let next = slice_subrange(rest, i + 5, rest.len());
                assert(next@ =~= rest@.skip(i + 5));
                let part = url_part(next);
                if !is_percent_safe(part.as_str()) {
                    return false;
                }
                match result_of(next) {
                    Some(_) => {
                        found += 1;
                    },
                    None => {},
                }
                if found >= MAX_RESULTS {
                    return true;
                }
                pos = pos + i + 5;
                assert(next@ =~= v@.skip(pos as int));
            },
            None => {
                return true;
            },
        }
    }
}

/// Reads the results of a DuckDuckGo Lite page: links whose address stands
/// behind `uddg=`, each followed by a `result-snippet` cell.
pub fn parse_ddg_lite(html: &str) -> (r: Vec<String>)
    requires
        page_safe(html@, 0),
    ensures
        views(r@) == page_results(html@, 0),
{
    let v = chars_of(html);
    let mark = chars_of("uddg=");
    let mut out: Vec<String> = Vec::new();
    let mut pos: usize = 0;
    proof {
        reveal_strlit("uddg=");
    }
    assert(v@.skip(0) =~= v@);
    assert(views(out@) + page_results(v@, 0) =~= page_results(v@, 0));
    loop
        invariant
            pos <= v.len(),
            out.len() < MAX_RESULTS,
            mark@ == "uddg="@,
            mark@.len() == 5,
            page_safe(v@.skip(pos as int), out.len() as nat),
            page_results(v@, 0) == views(out@) + page_results(
                v@.skip(pos as int),
                out.len() as nat,
            ),
            v@ == html@,
        decreases v.len() - pos,
    {
        let rest = slice_subrange(v.as_slice(), pos, v.len());
        assert(rest@ =~= v@.skip(pos as int));
        match find(rest, mark.as_slice()) {
            Some(i) => {
                let next = slice_subrange(rest, i + 5, rest.len());
                assert(next@ =~= rest@.skip(i + 5));
                let ghost before = views(out@);
                let ghost n = out.len() as nat;
                let ghost now = link_result(next@);
                match result_of(next) {
                    Some(t) => {
                        out.push(t);
                    },
                    None => {},
                }
                assert(views(out@) =~= before + now);
                if out.len() >= MAX_RESULTS {
                    return out;
                }
                pos = pos + i + 5;
                assert(next@ =~= v@.skip(pos as int));
                assert(before + (now + page_results(next@, n + now.len())) =~= views(out@)
                    + page_results(next@, n + now.len()));
            },
            None => {
                assert(views(out@) + Seq::<Seq<char>>::empty() =~= views(out@));
                return out;
            },
        }
    }
}

/// A page never gives more results than are taken from one page.
pub proof fn law_page_results_are_bounded(html: Seq<char>, found: nat)
    requires
        found < MAX_RESULTS,
    ensures
        found + page_results(html, found).len() <= MAX_RESULTS,
    decreases html.len(),
{
    match first(html, "uddg="@) {
        Some(i) => {
            let at = i + "uddg="@.len();
            if 0 <= i && 0 < at <= html.len() {
                let rest = html.skip(at);
                let now = link_result(rest);
                if found + now.len() < MAX_RESULTS {
                    law_page_results_are_bounded(rest, found + now.len());
                }
            }
        },
        None => {},
    }
}

// ---------------------------------------------------------------------------
// Laws of plain text

/// What stands between `<` and `>` is gone, with a space in its place; what
/// stands outside stays.
pub proof fn law_tags_are_gone(a: Seq<char>, tag: Seq<char>, b: Seq<char>)
    requires
        !a.contains('<'),
        !a.contains('>'),
        !tag.contains('>'),
    ensures
        untagged(a, false) == a,
        untagged(a + seq!['<'] + tag + seq!['>'] + b, false) == a + seq![' '] + untagged(b, false),
{
    let none = Seq::<char>::empty();
    lemma_untagged_text(a, none);
    assert(a + none =~= a);
    assert(untagged(none, false) =~= none);
    let inner = tag + seq!['>'] + b;
    let rest = seq!['<'] + inner;
    assert(a + seq!['<'] + tag + seq!['>'] + b =~= a + rest);
    lemma_untagged_text(a, rest);
    assert(rest.skip(1) =~= inner);
    lemma_untagged_tag(tag, b);
    assert(a + (seq![' '] + untagged(b, false)) =~= a + seq![' '] + untagged(b, false));
}

proof fn lemma_untagged_text(a: Seq<char>, rest: Seq<char>)
    requires
        !a.contains('<'),
        !a.contains('>'),
    ensures
        untagged(a + rest, false) == a + untagged(rest, false),
    decreases a.len(),
{
    let s = a + rest;
    if a.len() > 0 {
        let t = a.skip(1);
        assert(a[0] != '<' && a[0] != '>');
        assert(!t.contains('<')) by {
            if t.contains('<') {
                let k = choose|k: int| 0 <= k < t.len() && t[k] == '<';
                assert(a[k + 1] == '<');
            }
        }
        assert(!t.contains('>')) by {
            if t.contains('>') {
                let k = choose|k: int| 0 <= k < t.len() && t[k] == '>';
                assert(a[k + 1] == '>');
            }
        }
        lemma_untagged_text(t, rest);
        assert(s.skip(1) =~= t + rest);
        assert(seq![a[0]] + (t + untagged(rest, false)) =~= a + untagged(rest, false));
    } else {
        assert(s =~= rest);
        assert(a + untagged(rest, false) =~= untagged(rest, false));
    }
}

proof fn lemma_untagged_tag(tag: Seq<char>, b: Seq<char>)
    requires
        !tag.contains('>'),
    ensures
        untagged(tag + seq!['>'] + b, true) == seq![' '] + untagged(b, false),
    decreases tag.len(),
{
    let s = tag + seq!['>'] + b;
    if tag.len() > 0 {
        let t = tag.skip(1);
        assert(tag[0] != '>');
        assert(!t.contains('>')) by {
            if t.contains('>') {
                let k = choose|k: int| 0 <= k < t.len() && t[k] == '>';
                assert(tag[k + 1] == '>');
            }
        }
        lemma_untagged_tag(t, b);
        assert(s.skip(1) =~= t + seq!['>'] + b);
        assert(s[0] == tag[0]);
    } else {
        assert(s[0] == '>');
        assert(s.skip(1) =~= b);
    }
}

proof fn lemma_nothing_replaced(s: Seq<char>, p: Seq<char>, r: Seq<char>)
    requires
        p.len() > 0,
        p[0] == '&',
        !s.contains('&'),
    ensures
        replaced(s, p, r) == s,
{
    lemma_first_from(s, p, 0);
    if first(s, p) is Some {
        let i = first(s, p)->0;
        assert(s.subrange(i, i + p.len())[0] == '&');
        assert(s[i] == '&');
    }
}

/// A text without entities is left as it is, and each entity alone stands for its
/// character.
pub proof fn law_entities_stand_for_characters(s: Seq<char>)
    requires
        !s.contains('&'),
    ensures
        without_entities(s) == s,
        !s.contains('<') && !s.contains('>') ==> without_entities(untagged(s, false)) == s,
{
    reveal_strlit("&amp;");
    reveal_strlit("&lt;");
    reveal_strlit("&gt;");
    reveal_strlit("&quot;");
    reveal_strlit("&#x27;");
    reveal_strlit("&#39;");
    reveal_strlit("&nbsp;");
    lemma_nothing_replaced(s, "&amp;"@, "&"@);
    lemma_nothing_replaced(s, "&lt;"@, "<"@);
    lemma_nothing_replaced(s, "&gt;"@, ">"@);
    lemma_nothing_replaced(s, "&quot;"@, "\""@);
    lemma_nothing_replaced(s, "&#x27;"@, "'"@);
    lemma_nothing_replaced(s, "&#39;"@, "'"@);
    lemma_nothing_replaced(s, "&nbsp;"@, " "@);
    if !s.contains('<') && !s.contains('>') {
        law_tags_are_gone(s, Seq::<char>::empty(), Seq::<char>::empty());
    }
}

proof fn lemma_one_replaced(a: Seq<char>, p: Seq<char>, b: Seq<char>, r: Seq<char>)
    requires
        p.len() > 0,
        p[0] == '&',
        !a.contains('&'),
        !b.contains('&'),
    ensures
        replaced(a + p + b, p, r) == a + r + b,
{
    let s = a + p + b;
    let at = a.len() as int;
    lemma_first_from(s, p, 0);
    assert(s.subrange(at, at + p.len()) =~= p);
    assert(occurs_at(s, p, at));
    let i = first(s, p)->0;
    assert(i == at) by {
        if i < at {
            assert(s.subrange(i, i + p.len())[0] == '&');
            assert(a[i] == '&');
        }
    }
    assert(s.take(at) =~= a);
    assert(s.skip(at + p.len()) =~= b);
    lemma_nothing_replaced(b, p, r);
}

/// An entity in a text becomes the character that it stands for, and nothing else
/// of the text changes.
pub proof fn law_entities_are_decoded(a: Seq<char>, b: Seq<char>)
    requires
        !a.contains('&'),
        !b.contains('&'),
    ensures
        without_entities(a + "&lt;"@ + b) == a + "<"@ + b,
        without_entities(a + "&gt;"@ + b) == a + ">"@ + b,
        without_entities(a + "&quot;"@ + b) == a + "\""@ + b,
        without_entities(a + "&#39;"@ + b) == a + "'"@ + b,
        without_entities(a + "&nbsp;"@ + b) == a + " "@ + b,
        without_entities(a + "&#x27;"@ + b) == a + "'"@ + b,
{
    reveal_strlit("&amp;");
    reveal_strlit("&lt;");
    reveal_strlit("&gt;");
    reveal_strlit("&quot;");
    reveal_strlit("&#x27;");
    reveal_strlit("&#39;");
    reveal_strlit("&nbsp;");
    reveal_strlit("<");
    reveal_strlit(">");
    reveal_strlit("\"");
    reveal_strlit("'");
    reveal_strlit(" ");
    lemma_entity(a, "&lt;"@, b, "<"@);
    lemma_entity(a, "&gt;"@, b, ">"@);
    lemma_entity(a, "&quot;"@, b, "\""@);
    lemma_entity(a, "&#39;"@, b, "'"@);
    lemma_entity(a, "&#x27;"@, b, "'"@);
    lemma_entity(a, "&nbsp;"@, b, " "@);
    assert("&lt;"@[1] == 'l' && "&gt;"@[1] == 'g' && "&quot;"@[1] == 'q' && "&#39;"@[1] == '#'
        && "&#39;"@[2] == '3' && "&#x27;"@[2] == 'x' && "&nbsp;"@[1] == 'n' && "&amp;"@[1] == 'a');
}

/// Another entity is not touched, and none is left behind.
proof fn lemma_entity(a: Seq<char>, p: Seq<char>, b: Seq<char>, r: Seq<char>)
    requires
        p.len() > 3,
        p[0] == '&',
        forall|k: int| 1 <= k < p.len() ==> (#[trigger] p[k]) != '&',
        !a.contains('&'),
        !b.contains('&'),
        !r.contains('&'),
    ensures
        replaced(a + p + b, p, r) == a + r + b,
        forall|q: Seq<char>, x: Seq<char>|
            q.len() > 3 && q[0] == '&' && (q[1] != p[1] || q[2] != p[2]) ==> #[trigger] replaced(
                a + p + b,
                q,
                x,
            ) == a + p + b,
        forall|q: Seq<char>, x: Seq<char>|
            q.len() > 3 && q[0] == '&' ==> #[trigger] replaced(a + r + b, q, x) == a + r + b,
{
    lemma_one_replaced(a, p, b, r);
    let s = a + p + b;
    assert forall|q: Seq<char>, x: Seq<char>|
        q.len() > 3 && q[0] == '&' && (q[1] != p[1] || q[2] != p[2]) implies #[trigger] replaced(
        s,
        q,
        x,
    ) == s by {
        lemma_first_from(s, q, 0);
        if first(s, q) is Some {
            let i = first(s, q)->0;
            let t = s.subrange(i, i + q.len());
            assert(t[0] == s[i] && t[1] == s[i + 1] && t[2] == s[i + 2]);
            if i < a.len() {
                assert(a[i] == '&');
            } else if i >= a.len() + p.len() {
                assert(b[i - a.len() - p.len()] == '&');
            } else if i > a.len() {
                assert(p[i - a.len()] == '&');
            } else {
                assert(s[i + 1] == p[1] && s[i + 2] == p[2]);
            }
        }
    }
    let u = a + r + b;
    assert(!u.contains('&')) by {
        if u.contains('&') {
            let k = choose|k: int| 0 <= k < u.len() && u[k] == '&';
            if k < a.len() {
                assert(a[k] == '&');
            } else if k < a.len() + r.len() {
                assert(r[k - a.len()] == '&');
            } else {
                assert(b[k - a.len() - r.len()] == '&');
            }
        }
    }
    assert forall|q: Seq<char>, x: Seq<char>| q.len() > 3 && q[0] == '&' implies #[trigger] replaced(
        u,
        q,
        x,
    ) == u by {
        lemma_nothing_replaced(u, q, x);
    }
}

/// No script and no style sheet is left of a page.
pub proof fn law_scripts_are_gone(html: Seq<char>)
    ensures
        !mentions(lowered(without_scripts(html)), "<style"@),
        !mentions(lowered(cut_blocks(html, "<script"@, "</script>"@, " "@, true)), "<script"@),
        !mentions(lowered(html), "<script"@) && !mentions(lowered(html), "<style"@)
            ==> without_scripts(html) == html,
{
    reveal_strlit("<script");
    reveal_strlit("</script>");
    reveal_strlit("<style");
    reveal_strlit("</style>");
    reveal_strlit(" ");
    let a = cut_blocks(html, "<script"@, "</script>"@, " "@, true);
    lemma_cut_blocks(html, "<script"@, "</script>"@, " "@, true);
    lemma_cut_blocks(a, "<style"@, "</style>"@, " "@, true);
}

/// One line of plain words, without markup, is shown as it is but for its blanks.
pub proof fn law_plain_words_stay(s: Seq<char>)
    requires
        !s.contains('<'),
        !s.contains('>'),
        !s.contains('&'),
        !s.contains('\n'),
        s.len() > 0,
        words(s).len() > 0,
    ensures
        plain(s) == trimmed(joined(words(s), " "@).push('\n')),
{
    reveal_strlit("<script");
    reveal_strlit("<style");
    lemma_has_no_open(s, "<script"@);
    lemma_has_no_open(s, "<style"@);
    law_scripts_are_gone(s);
    law_tags_are_gone(s, Seq::<char>::empty(), Seq::<char>::empty());
    law_entities_stand_for_characters(s);
    lemma_first_from(s, seq!['\n'], 0);
    if first(s, seq!['\n']) is Some {
        let k = first(s, seq!['\n'])->0;
        assert(s.subrange(k, k + 1)[0] == '\n');
        assert(s[k] == '\n');
    }
    assert(lines_of(s) =~= seq![s]);
    let line = collapsed(s);
    lemma_joined_words(words(s), s);
    assert(lines_of(s).skip(1) =~= Seq::<Seq<char>>::empty());
    assert(tidy(Seq::<Seq<char>>::empty(), false) =~= Seq::<char>::empty());
    assert(tidy(lines_of(s), false) =~= line.push('\n'));
}

proof fn lemma_joined_words(w: Seq<Seq<char>>, s: Seq<char>)
    requires
        w == words(s),
        w.len() > 0,
    ensures
        joined(w, " "@).len() > 0,
{
    law_words_hold_no_blank(s, 0);
    law_words_hold_no_blank(s, w.len() - 1);
}

proof fn lemma_has_no_open(s: Seq<char>, p: Seq<char>)
    requires
        !s.contains('<'),
        p.len() > 0,
        p[0] == '<',
    ensures
        !mentions(lowered(s), p),
{
    let t = lowered(s);
    lemma_has(t, p);
    if mentions(t, p) {
        let i = choose|i: int| occurs_at(t, p, i);
        assert(t.subrange(i, i + p.len())[0] == '<');
        assert(t[i] == '<');
        assert(s[i] == '<');
    }
}

/// A link of a search page gives its title, its address and its snippet; one
/// without a title or an address gives nothing.
pub proof fn law_links_give_title_address_and_snippet(
    url: Seq<char>,
    between: Seq<char>,
    title: Seq<char>,
    rest: Seq<char>,
)
    requires
        !url.contains('&'),
        !url.contains('"'),
        !between.contains('>'),
        between.len() > 0,
        between[0] == '"' || between[0] == '&',
        !url.contains('>'),
        forall|k: int| 0 <= k < title.len() ==> !occurs_at(title + "</a>"@ + rest, "</a>"@, k),
    ensures
        ({
            let s = url + between + seq!['>'] + title + "</a>"@ + rest;
            &&& link_url(s) == decoded(url)
            &&& link_title(s) == plain(title)
            &&& decoded(url).len() > 0 && plain(title).len() > 0 ==> link_result(s).len() == 1
                && link_result(s)[0] == plain(title) + " — "@ + decoded(url) + "\n"@ + link_snippet(
                s,
            )
            &&& decoded(url).len() == 0 || plain(title).len() == 0 ==> link_result(s).len() == 0
        }),
{
    reveal_strlit("</a>");
    let s = url + between + seq!['>'] + title + "</a>"@ + rest;
    lemma_link_len(url, between + seq!['>'] + title + "</a>"@ + rest);
    assert(s =~= url + (between + seq!['>'] + title + "</a>"@ + rest));
    assert(s.take(url.len() as int) =~= url);
    let at = (url.len() + between.len()) as int;
    lemma_first_from(s, seq!['>'], 0);
    assert(s.subrange(at, at + 1) =~= seq!['>']);
    assert(occurs_at(s, seq!['>'], at));
    let i = first(s, seq!['>'])->0;
    assert(i == at) by {
        if i < at {
            assert(s.subrange(i, i + 1)[0] == '>');
            if i < url.len() {
                assert(url[i] == '>');
            } else {
                assert(between[i - url.len()] == '>');
            }
        }
    }
    let after = s.skip(at + 1);
    assert(after =~= title + "</a>"@ + rest);
    lemma_first_from(after, "</a>"@, 0);
    let n = title.len() as int;
    assert(after.subrange(n, n + 4) =~= "</a>"@);
    assert(occurs_at(after, "</a>"@, n));
    assert(first(after, "</a>"@) == Some(n));
    assert(after.take(n) =~= title);
}

proof fn lemma_link_len(url: Seq<char>, rest: Seq<char>)
    requires
        !url.contains('&'),
        !url.contains('"'),
        rest.len() > 0,
        rest[0] == '"' || rest[0] == '&',
    ensures
        link_len(url + rest) == url.len(),
    decreases url.len(),
{
    let s = url + rest;
    if url.len() > 0 {
        let t = url.skip(1);
        assert(url[0] != '&' && url[0] != '"');
        assert(!t.contains('&')) by {
            if t.contains('&') {
                let k = choose|k: int| 0 <= k < t.len() && t[k] == '&';
                assert(url[k + 1] == '&');
            }
        }
        assert(!t.contains('"')) by {
            if t.contains('"') {
                let k = choose|k: int| 0 <= k < t.len() && t[k] == '"';
                assert(url[k + 1] == '"');
            }
        }
        lemma_link_len(t, rest);
        assert(s.skip(1) =~= t + rest);
    } else {
        assert(s =~= rest);
    }
}

/// The results of a page are those of its links, in their order, up to five.
pub proof fn law_results_are_of_the_links(pre: Seq<char>, rest: Seq<char>, found: nat)
    requires
        forall|k: int| 0 <= k < pre.len() ==> !occurs_at(pre + "uddg="@ + rest, "uddg="@, k),
        found < 5,
    ensures
        page_results(pre + "uddg="@ + rest, found) == if found + link_result(rest).len() >= 5 {
            link_result(rest)
        } else {
            link_result(rest) + page_results(rest, found + link_result(rest).len())
        },
        forall|s: Seq<char>|
            (forall|k: int| !occurs_at(s, "uddg="@, k)) ==> #[trigger] page_results(s, found).len()
                == 0,
{
    reveal_strlit("uddg=");
    let s = pre + "uddg="@ + rest;
    let n = pre.len() as int;
    lemma_first_from(s, "uddg="@, 0);
    assert(s.subrange(n, n + 5) =~= "uddg="@);
    assert(occurs_at(s, "uddg="@, n));
    assert(first(s, "uddg="@) == Some(n));
    assert(s.skip(n + 5) =~= rest);
    assert forall|t: Seq<char>| (forall|k: int| !occurs_at(t, "uddg="@, k)) implies #[trigger] page_results(
        t,
        found,
    ).len() == 0 by {
        lemma_first_from(t, "uddg="@, 0);
    }
}

/// Lines keep their order, one below the other; of empty ones in a row one stays.
pub proof fn law_lines_stay_below_one_another(line: Seq<char>, rest: Seq<Seq<char>>, after: bool)
    ensures
        words(line).len() > 0 ==> tidy(seq![line] + rest, after) == joined(words(line), " "@).push(
            '\n',
        ) + tidy(rest, false),
        words(line).len() == 0 && after ==> tidy(seq![line] + rest, after) == tidy(rest, true),
        words(line).len() == 0 && !after ==> tidy(seq![line] + rest, after) == seq!['\n'] + tidy(
            rest,
            true,
        ),
        collapsed(line) == joined(words(line), " "@),
        MAX_RESULTS == 5,
{
    let all = seq![line] + rest;
    assert(all.skip(1) =~= rest);
    if words(line).len() > 0 {
        lemma_joined_words(words(line), line);
    } else {
        assert(collapsed(line) =~= Seq::<char>::empty());
        assert(Seq::<char>::empty().push('\n') =~= seq!['\n']);
    }
}

/// The snippet of a link is what stands in the cell behind it.
pub proof fn law_snippets_stand_in_their_cell(
    pre: Seq<char>,
    attrs: Seq<char>,
    text: Seq<char>,
    rest: Seq<char>,
)
    requires
        ({
            let s = pre + "result-snippet"@ + attrs + seq!['>'] + text + "</td>"@ + rest;
            forall|k: int| 0 <= k < pre.len() ==> !occurs_at(s, "result-snippet"@, k)
        }),
        !attrs.contains('>'),
        forall|k: int| 0 <= k < text.len() ==> !occurs_at(text + "</td>"@ + rest, "</td>"@, k),
    ensures
        link_snippet(pre + "result-snippet"@ + attrs + seq!['>'] + text + "</td>"@ + rest) == plain(
            text,
        ),
{
    reveal_strlit("result-snippet");
    reveal_strlit("</td>");
    let mark = "result-snippet"@;
    let s = pre + mark + attrs + seq!['>'] + text + "</td>"@ + rest;
    let n = pre.len() as int;
    lemma_first_from(s, mark, 0);
    assert(s.subrange(n, n + 14) =~= mark);
    assert(occurs_at(s, mark, n));
    assert(first(s, mark) == Some(n));
    let t = s.skip(n);
    let m = 14 + attrs.len() as int;
    lemma_first_from(t, seq!['>'], 0);
    assert(t.subrange(m, m + 1) =~= seq!['>']);
    assert(occurs_at(t, seq!['>'], m));
    let i = first(t, seq!['>'])->0;
    assert(i == m) by {
        if i < m {
            assert(t.subrange(i, i + 1)[0] == '>');
            if i < 14 {
                assert(mark[i] == '>');
            } else {
                assert(attrs[i - 14] == '>');
            }
        }
    }
    let u = t.skip(m + 1);
    assert(u =~= text + "</td>"@ + rest);
    lemma_first_from(u, "</td>"@, 0);
    let k = text.len() as int;
    assert(u.subrange(k, k + 5) =~= "</td>"@);
    assert(occurs_at(u, "</td>"@, k));
    assert(first(u, "</td>"@) == Some(k));
    assert(u.take(k) =~= text);
}

/// Texts without a percent sign can be read; a continuation byte behind an escape
/// is what cannot.
pub proof fn law_plain_texts_are_safe(bytes: Seq<u8>, i: int)
    ensures
        !bytes.contains(37u8) ==> percent_safe(bytes),
        bytes.len() <= 3 ==> percent_safe(bytes),
        0 <= i && i + 3 < bytes.len() && bytes[i] == 37 && is_continuation_byte(bytes[i + 3])
            ==> !percent_safe(bytes),
        0 <= i && i + 4 == bytes.len() && bytes[i] == 37 && !is_continuation_byte(bytes[i + 3])
            && !bytes.take(i).contains(37u8) ==> percent_safe(bytes),
{
    if 0 <= i && i + 4 == bytes.len() && !bytes.take(i).contains(37u8) {
        assert forall|k: int| 0 <= k < i implies bytes[k] != 37 by {
            assert(bytes.take(i)[k] == bytes[k]);
        }
    }
}

} // verus!
