//! Text primitives shared by the parsers and formatters: line splitting,
//! separator splitting, trimming, and decimal numbers, each with a
//! mathematical description and a verified executable counterpart.

use vstd::prelude::*;
use vstd::string::StrSliceExecFns;
use vstd::string::StringExecFns;

verus! {

/// The whitespace characters that trimming removes.
pub open spec fn is_space(c: char) -> bool {
    c == ' ' || c == '\t' || c == '\r' || c == '\n'
}

/// Index of the first occurrence of `c` in `t`, if any.
pub open spec fn first_idx(t: Seq<char>, c: char) -> Option<int>
    decreases t.len(),
{
    if t.len() == 0 {
        None
    } else if t[0] == c {
        Some(0int)
    } else {
        match first_idx(t.drop_first(), c) {
            Some(i) => Some(i + 1),
            None => None,
        }
    }
}

/// What `first_idx` returns: the position of `c`, with nothing equal to `c`
/// before it, or `None` when `c` does not occur at all.
pub proof fn lemma_first_idx(t: Seq<char>, c: char)
    ensures
        match first_idx(t, c) {
            Some(i) => 0 <= i < t.len() && t[i] == c && (forall|k: int| 0 <= k < i ==> t[k] != c),
            None => forall|k: int| 0 <= k < t.len() ==> t[k] != c,
        },
    decreases t.len(),
{
    if t.len() == 0 {
    } else if t[0] == c {
    } else {
        lemma_first_idx(t.drop_first(), c);
        assert(forall|k: int| 1 <= k < t.len() ==> t[k] == t.drop_first()[k - 1]);
    }
}

/// Pieces of `t` between occurrences of `c`; one piece, `t` itself, when `c`
/// does not occur.
pub open spec fn split_char(t: Seq<char>, c: char) -> Seq<Seq<char>>
    decreases t.len(),
        via split_char_dec
{
    match first_idx(t, c) {
        None => seq![t],
        Some(i) => seq![t.subrange(0, i)] + split_char(t.subrange(i + 1, t.len() as int), c),
    }
}

#[via_fn]
proof fn split_char_dec(t: Seq<char>, c: char) {
    lemma_first_idx(t, c);
}

/// A line with a trailing carriage return loses it.
pub open spec fn strip_cr(line: Seq<char>) -> Seq<char> {
    if line.len() > 0 && line.last() == '\r' {
        line.drop_last()
    } else {
        line
    }
}

/// The lines of a text: pieces between newlines, each without a trailing
/// carriage return, with no empty piece after a final newline and no piece
/// at all for the empty text.
pub open spec fn lines_of(t: Seq<char>) -> Seq<Seq<char>> {
    if t.len() == 0 {
        Seq::empty()
    } else if t.last() == '\n' {
        split_char(t.drop_last(), '\n').map_values(|l: Seq<char>| strip_cr(l))
    } else {
        split_char(t, '\n').map_values(|l: Seq<char>| strip_cr(l))
    }
}

/// Splitting off the first line: when a newline exists at `j` (and nothing
/// earlier), the lines are the piece before it followed by the lines of the
/// rest.
proof fn lemma_lines_step(t: Seq<char>, j: int)
    requires
        0 <= j < t.len(),
        t[j] == '\n',
        forall|k: int| 0 <= k < j ==> t[k] != '\n',
    ensures
        lines_of(t) == seq![strip_cr(t.subrange(0, j))] + lines_of(
            t.subrange(j + 1, t.len() as int),
        ),
{
    let suffix = t.subrange(j + 1, t.len() as int);
    let piece = t.subrange(0, j);
    let strip = |l: Seq<char>| strip_cr(l);
    if t.last() == '\n' && j == t.len() - 1 {
        // the only newline is the final one: one piece, no further lines
        let body = t.drop_last();
        lemma_first_idx(body, '\n');
        assert(body =~= piece);
        assert(first_idx(body, '\n') is None) by {
            lemma_first_idx(body, '\n');
            match first_idx(body, '\n') {
                Some(i) => {
                    assert(t[i] == '\n');
                },
                None => {},
            }
        }
        assert(split_char(body, '\n') =~= seq![piece]);
        assert(suffix.len() == 0);
        assert(lines_of(t) =~= seq![strip_cr(piece)] + lines_of(suffix));
    } else if t.last() == '\n' {
        // more text follows the first newline, and the text ends in a newline
        let body = t.drop_last();
        assert(first_idx(body, '\n') == Some(j)) by {
            lemma_first_idx(body, '\n');
            match first_idx(body, '\n') {
                Some(i) => {
                    if i < j {
                        assert(t[i] == '\n');
                    }
                    if i > j {
                        assert(body[j] == '\n');
                    }
                },
                None => {
                    assert(body[j] == '\n');
                },
            }
        }
        assert(body.subrange(0, j) =~= piece);
        assert(body.subrange(j + 1, body.len() as int) =~= suffix.drop_last());
        assert(suffix.len() > 0 && suffix.last() == '\n');
        assert(lines_of(t) == (seq![piece] + split_char(suffix.drop_last(), '\n')).map_values(
            strip,
        ));
        assert((seq![piece] + split_char(suffix.drop_last(), '\n')).map_values(strip)
            =~= seq![strip_cr(piece)] + split_char(suffix.drop_last(), '\n').map_values(strip));
    } else {
        // the text does not end in a newline, so the suffix is nonempty
        assert(first_idx(t, '\n') == Some(j)) by {
            lemma_first_idx(t, '\n');
            match first_idx(t, '\n') {
                Some(i) => {
                    if i < j {
                        assert(t[i] == '\n');
                    }
                    if i > j {
                        assert(t[j] == '\n');
                    }
                },
                None => {
                    assert(t[j] == '\n');
                },
            }
        }
        assert(suffix.len() > 0 && suffix.last() != '\n');
        assert(lines_of(t) == (seq![piece] + split_char(suffix, '\n')).map_values(strip));
        assert((seq![piece] + split_char(suffix, '\n')).map_values(strip) =~= seq![strip_cr(piece)]
            + split_char(suffix, '\n').map_values(strip));
    }
}

/// A text without any newline is one single line (after carriage-return
/// stripping), unless it is empty.
proof fn lemma_lines_whole(t: Seq<char>)
    requires
        t.len() > 0,
        forall|k: int| 0 <= k < t.len() ==> t[k] != '\n',
    ensures
        lines_of(t) == seq![strip_cr(t)],
{
    assert(t.last() != '\n');
    lemma_first_idx(t, '\n');
    match first_idx(t, '\n') {
        Some(i) => {
            assert(t[i] == '\n');
        },
        None => {},
    }
    assert(split_char(t, '\n').map_values(|l: Seq<char>| strip_cr(l)) =~= seq![strip_cr(t)]);
}

/// The lines of a text, as owned strings.
pub fn split_lines(s: &str) -> (r: Vec<String>)
    ensures
        r@.map_values(|l: String| l@) == lines_of(s@),
{
    let mut out: Vec<String> = Vec::new();
    let len = s.unicode_len();
    if len == 0 {
        assert(out@.map_values(|l: String| l@) =~= lines_of(s@));
        return out;
    }
    let mut pos: usize = 0;
    proof {
        assert(s@.subrange(0, len as int) =~= s@);
        assert(out@.map_values(|l: String| l@) + lines_of(s@) =~= lines_of(s@));
    }
    loop
        invariant_except_break
            pos < len,
            len == s@.len(),
            lines_of(s@) == out@.map_values(|l: String| l@) + lines_of(
                s@.subrange(pos as int, len as int),
            ),
        ensures
            out@.map_values(|l: String| l@) == lines_of(s@),
        decreases len - pos,
    {
        let ghost rest = s@.subrange(pos as int, len as int);
        let mut j: usize = pos;
        while j < len && s.get_char(j) != '\n'
            invariant
                pos <= j <= len,
                len == s@.len(),
                forall|k: int| pos <= k < j ==> s@[k] != '\n',
            decreases len - j,
        {
            j += 1;
        }
        // the piece runs to j, less a trailing carriage return
        let mut end: usize = j;
        if end > pos && s.get_char(end - 1) == '\r' {
            end -= 1;
        }
        let piece = s.substring_char(pos, end);
        proof {
            assert(strip_cr(s@.subrange(pos as int, j as int)) =~= s@.subrange(
                pos as int,
                end as int,
            ));
        }
        let ghost prior = out@;
        out.push(String::from_str(piece));
        proof {
            assert(out@.map_values(|l: String| l@) =~= prior.map_values(|l: String| l@).push(
                piece@,
            ));
        }
        if j == len {
            // no final newline: the remainder was one whole line
            proof {
                assert(rest.len() > 0);
                assert(forall|k: int| 0 <= k < rest.len() ==> rest[k] == s@[pos + k]);
                lemma_lines_whole(rest);
                assert(strip_cr(rest) =~= piece@);
                assert(lines_of(rest) =~= seq![piece@]);
                assert(out@.map_values(|l: String| l@) =~= lines_of(s@));
            }
            break;
        }
        proof {
            assert(forall|k: int| 0 <= k < rest.len() ==> rest[k] == s@[pos + k]);
            assert(rest[j - pos] == '\n');
            lemma_lines_step(rest, j - pos);
            assert(rest.subrange(0, j - pos) =~= s@.subrange(pos as int, j as int));
            assert(rest.subrange(j - pos + 1, rest.len() as int) =~= s@.subrange(
                j as int + 1,
                len as int,
            ));
        }
        if j + 1 == len {
            // the text ends with this newline: no empty trailing line
            proof {
                assert(s@.subrange(j as int + 1, len as int).len() == 0);
                assert(lines_of(s@.subrange(j as int + 1, len as int)) =~= Seq::<
                    Seq<char>,
                >::empty());
                assert(out@.map_values(|l: String| l@) =~= lines_of(s@));
            }
            break;
        }
        pos = j + 1;
    }
    out
}

/// Whether `c` is one of the trimmed whitespace characters.
fn is_space_char(c: char) -> (r: bool)
    ensures
        r == is_space(c),
{
    c == ' ' || c == '\t' || c == '\r' || c == '\n'
}

/// `s` without leading whitespace.
pub open spec fn trim_front(s: Seq<char>) -> Seq<char>
    decreases s.len(),
{
    if s.len() > 0 && is_space(s[0]) {
        trim_front(s.drop_first())
    } else {
        s
    }
}

/// `s` without trailing whitespace.
pub open spec fn trim_back(s: Seq<char>) -> Seq<char>
    decreases s.len(),
{
    if s.len() > 0 && is_space(s.last()) {
        trim_back(s.drop_last())
    } else {
        s
    }
}

/// `s` without leading and trailing whitespace.
pub open spec fn trim_of(s: Seq<char>) -> Seq<char> {
    trim_back(trim_front(s))
}

/// The slice of `s` with leading and trailing whitespace removed.
#[verifier::rlimit(50)]
pub fn trim<'a>(s: &'a str) -> (r: &'a str)
    ensures
        r@ == trim_of(s@),
{
    let len = s.unicode_len();
    let mut start: usize = 0;
    proof {
        assert(s@.subrange(0, len as int) =~= s@);
    }
    while start < len && is_space_char(s.get_char(start))
        invariant
            start <= len,
            len == s@.len(),
            trim_front(s@) == trim_front(s@.subrange(start as int, len as int)),
        decreases len - start,
    {
        proof {
            assert(s@.subrange(start as int, len as int).drop_first() =~= s@.subrange(
                start as int + 1,
                len as int,
            ));
        }
        start += 1;
    }
    assert(trim_front(s@) == s@.subrange(start as int, len as int));
    let mut end: usize = len;
    while end > start && is_space_char(s.get_char(end - 1))
        invariant
            start <= end <= len,
            len == s@.len(),
            trim_back(s@.subrange(start as int, len as int)) == trim_back(
                s@.subrange(start as int, end as int),
            ),
        decreases end,
    {
        proof {
            assert(s@.subrange(start as int, end as int).drop_last() =~= s@.subrange(
                start as int,
                end as int - 1,
            ));
        }
        end -= 1;
    }
    assert(trim_of(s@) == s@.subrange(start as int, end as int));
    s.substring_char(start, end)
}

/// The separator `sep` occurs in `t` starting at position `i`.
pub open spec fn is_match_at(t: Seq<char>, sep: Seq<char>, i: int) -> bool {
    0 <= i && i + sep.len() <= t.len() && t.subrange(i, i + sep.len()) == sep
}

/// Position of the first occurrence of `sep` in `t`, if any.
pub open spec fn first_occ(t: Seq<char>, sep: Seq<char>) -> Option<int>
    decreases t.len(),
{
    if sep.len() == 0 || t.len() < sep.len() {
        None
    } else if t.subrange(0, sep.len() as int) == sep {
        Some(0int)
    } else {
        match first_occ(t.drop_first(), sep) {
            Some(i) => Some(i + 1),
            None => None,
        }
    }
}

/// An occurrence one position into the tail is an occurrence one position
/// later in the whole.
proof fn lemma_match_shift(t: Seq<char>, sep: Seq<char>, k: int)
    requires
        t.len() > 0,
        0 <= k,
    ensures
        is_match_at(t.drop_first(), sep, k) <==> is_match_at(t, sep, k + 1),
{
    if k + 1 + sep.len() <= t.len() {
        assert(t.drop_first().subrange(k, k + sep.len() as int) =~= t.subrange(
            k + 1,
            k + 1 + sep.len() as int,
        ));
    }
}

/// What `first_occ` returns: the position of the first occurrence, with no
/// occurrence before it, or `None` when `sep` does not occur at all.
pub proof fn lemma_first_occ(t: Seq<char>, sep: Seq<char>)
    requires
        sep.len() > 0,
    ensures
        match first_occ(t, sep) {
            Some(i) => is_match_at(t, sep, i) && (forall|k: int|
                0 <= k < i ==> !is_match_at(t, sep, k)),
            None => forall|k: int| !is_match_at(t, sep, k),
        },
    decreases t.len(),
{
    if t.len() < sep.len() {
    } else if t.subrange(0, sep.len() as int) == sep {
    } else {
        lemma_first_occ(t.drop_first(), sep);
        assert forall|k: int| 0 <= k implies (is_match_at(t.drop_first(), sep, k) <==> is_match_at(
            t,
            sep,
            k + 1,
        )) by {
            lemma_match_shift(t, sep, k);
        }
        match first_occ(t.drop_first(), sep) {
            Some(i) => {
                assert(is_match_at(t, sep, i + 1));
                assert forall|k: int| 0 <= k < i + 1 implies !is_match_at(t, sep, k) by {
                    if k > 0 {
                        assert(!is_match_at(t.drop_first(), sep, k - 1));
                    }
                }
            },
            None => {
                assert forall|k: int| !is_match_at(t, sep, k) by {
                    if k > 0 {
                        assert(!is_match_at(t.drop_first(), sep, k - 1));
                    }
                }
            },
        }
    }
}

/// Pieces of `t` between occurrences of the separator `sep`; one piece, `t`
/// itself, when `sep` does not occur or is empty.
pub open spec fn split_seq(t: Seq<char>, sep: Seq<char>) -> Seq<Seq<char>>
    decreases t.len(),
        via split_seq_dec
{
    if sep.len() == 0 {
        seq![t]
    } else {
        match first_occ(t, sep) {
            None => seq![t],
            Some(i) => seq![t.subrange(0, i)] + split_seq(
                t.subrange(i + sep.len(), t.len() as int),
                sep,
            ),
        }
    }
}

#[via_fn]
proof fn split_seq_dec(t: Seq<char>, sep: Seq<char>) {
    if sep.len() > 0 {
        lemma_first_occ(t, sep);
    }
}

/// Whether `sep` occurs in `s` at position `i`.
fn match_at(s: &str, sep: &str, i: usize) -> (r: bool)
    requires
        i + sep@.len() <= s@.len(),
        s@.len() <= usize::MAX,
    ensures
        r == is_match_at(s@, sep@, i as int),
{
    let m = sep.unicode_len();
    let mut k: usize = 0;
    while k < m
        invariant
            k <= m,
            m == sep@.len(),
            i + m <= s@.len(),
            s@.len() <= usize::MAX,
            forall|j: int| 0 <= j < k ==> s@[i + j] == sep@[j],
        decreases m - k,
    {
        if s.get_char(i + k) != sep.get_char(k) {
            assert(s@.subrange(i as int, i + m) != sep@) by {
                assert(s@.subrange(i as int, i + m)[k as int] != sep@[k as int]);
            }
            return false;
        }
        k += 1;
    }
    assert(s@.subrange(i as int, i + m) =~= sep@);
    true
}

/// The pieces of `s` between occurrences of the separator `sep`.
pub fn split_by(s: &str, sep: &str) -> (r: Vec<String>)
    requires
        sep@.len() > 0,
    ensures
        r@.map_values(|p: String| p@) == split_seq(s@, sep@),
{
    let mut out: Vec<String> = Vec::new();
    let len = s.unicode_len();
    let seplen = sep.unicode_len();
    let mut pos: usize = 0;
    proof {
        assert(s@.subrange(0, len as int) =~= s@);
        assert(out@.map_values(|p: String| p@) + split_seq(s@, sep@) =~= split_seq(s@, sep@));
    }
    loop
        invariant_except_break
            pos <= len,
            len == s@.len(),
            seplen == sep@.len(),
            seplen > 0,
            split_seq(s@, sep@) == out@.map_values(|p: String| p@) + split_seq(
                s@.subrange(pos as int, len as int),
                sep@,
            ),
        ensures
            out@.map_values(|p: String| p@) == split_seq(s@, sep@),
        decreases len - pos,
    {
        let ghost suffix = s@.subrange(pos as int, len as int);
        let ghost prior = out@;
        if len - pos < seplen {
            // no room for a separator: the remainder is the last piece
            let piece = s.substring_char(pos, len);
            out.push(String::from_str(piece));
            proof {
                assert(first_occ(suffix, sep@) is None);
                assert(split_seq(suffix, sep@) =~= seq![piece@]);
                assert(out@.map_values(|p: String| p@) =~= prior.map_values(
                    |p: String| p@,
                ).push(piece@));
                assert(out@.map_values(|p: String| p@) =~= split_seq(s@, sep@));
            }
            break;
        }
        let limit = len - seplen;
        let mut i: usize = pos;
        let mut found = false;
        while i <= limit && !found
            invariant
                pos <= i <= limit + 1,
                limit == len - seplen,
                len == s@.len(),
                seplen == sep@.len(),
                seplen > 0,
                found ==> i <= limit && is_match_at(s@, sep@, i as int),
                forall|k: int| pos <= k < i ==> !is_match_at(s@, sep@, k),
            decreases limit - i + if found { 0int } else { 1int },
        {
            if match_at(s, sep, i) {
                found = true;
            } else {
                i += 1;
            }
        }
        proof {
            assert forall|k: int| 0 <= k implies (is_match_at(suffix, sep@, k) <==> is_match_at(
                s@,
                sep@,
                pos + k,
            )) by {
                if k + seplen <= suffix.len() {
                    assert(suffix.subrange(k, k + seplen as int) =~= s@.subrange(
                        pos + k,
                        pos + k + seplen,
                    ));
                }
            }
            lemma_first_occ(suffix, sep@);
        }
        if found {
            let piece = s.substring_char(pos, i);
            out.push(String::from_str(piece));
            proof {
                assert(is_match_at(suffix, sep@, i - pos));
                match first_occ(suffix, sep@) {
                    Some(f) => {
                        if f < i - pos {
                            assert(is_match_at(s@, sep@, pos + f));
                        }
                        assert(f == i - pos);
                    },
                    None => {
                        assert(!is_match_at(suffix, sep@, i - pos));
                    },
                }
                assert(suffix.subrange(0, i - pos) =~= piece@);
                assert(suffix.subrange(i - pos + seplen, suffix.len() as int) =~= s@.subrange(
                    i + seplen,
                    len as int,
                ));
                assert(out@.map_values(|p: String| p@) =~= prior.map_values(
                    |p: String| p@,
                ).push(piece@));
                assert(split_seq(s@, sep@) =~= out@.map_values(|p: String| p@) + split_seq(
                    s@.subrange(i + seplen, len as int),
                    sep@,
                ));
            }
            pos = i + seplen;
        } else {
            // no occurrence in the remainder: it is the last piece
            let piece = s.substring_char(pos, len);
            out.push(String::from_str(piece));
            proof {
                assert(first_occ(suffix, sep@) is None) by {
                    match first_occ(suffix, sep@) {
                        Some(f) => {
                            assert(is_match_at(s@, sep@, pos + f));
                        },
                        None => {},
                    }
                }
                assert(split_seq(suffix, sep@) =~= seq![piece@]);
                assert(out@.map_values(|p: String| p@) =~= prior.map_values(
                    |p: String| p@,
                ).push(piece@));
                assert(out@.map_values(|p: String| p@) =~= split_seq(s@, sep@));
            }
            break;
        }
    }
    out
}

/// The position of the first occurrence of `c` in `s`, if any.
pub fn find_char(s: &str, c: char) -> (r: Option<usize>)
    ensures
        match r {
            Some(i) => i < s@.len() && s@[i as int] == c && first_idx(s@, c) == Some(i as int),
            None => first_idx(s@, c) is None,
        },
{
    let len = s.unicode_len();
    let mut i: usize = 0;
    while i < len
        invariant
            i <= len,
            len == s@.len(),
            forall|k: int| 0 <= k < i ==> s@[k] != c,
        decreases len - i,
    {
        if s.get_char(i) == c {
            proof {
                lemma_first_idx(s@, c);
                match first_idx(s@, c) {
                    Some(f) => {
                        if f < i as int {
                            assert(s@[f] != c);
                        }
                        if f > i as int {
                            assert(s@[i as int] != c);
                        }
                    },
                    None => {
                        assert(s@[i as int] != c);
                    },
                }
            }
            return Some(i);
        }
        i += 1;
    }
    proof {
        lemma_first_idx(s@, c);
        match first_idx(s@, c) {
            Some(f) => {
                assert(s@[f] == c);
            },
            None => {},
        }
    }
    None
}

/// Whether the two string slices hold the same characters.
pub fn str_eq(a: &str, b: &str) -> (r: bool)
    ensures
        r == (a@ == b@),
{
    let alen = a.unicode_len();
    let blen = b.unicode_len();
    if alen != blen {
        return false;
    }
    let mut k: usize = 0;
    while k < alen
        invariant
            k <= alen,
            alen == a@.len(),
            alen == b@.len(),
            forall|j: int| 0 <= j < k ==> a@[j] == b@[j],
        decreases alen - k,
    {
        if a.get_char(k) != b.get_char(k) {
            return false;
        }
        k += 1;
    }
    proof {
        assert(a@ =~= b@);
    }
    true
}

/// Whether `c` is a decimal digit.
pub open spec fn is_digit(c: char) -> bool {
    48 <= c as int <= 57
}

/// The numeric value of a digit character.
pub open spec fn digit_val(c: char) -> int {
    c as int - 48
}

/// Every character of `s` is a decimal digit.
pub open spec fn all_digits(s: Seq<char>) -> bool {
    forall|k: int| 0 <= k < s.len() ==> is_digit(#[trigger] s[k])
}

/// The number that the digit string `s` denotes.
pub open spec fn digits_val(s: Seq<char>) -> int
    decreases s.len(),
{
    if s.len() == 0 {
        0
    } else {
        digits_val(s.drop_last()) * 10 + digit_val(s.last())
    }
}

/// A digit string denotes a number that is not negative.
pub proof fn lemma_digits_val_nonneg(s: Seq<char>)
    requires
        all_digits(s),
    ensures
        digits_val(s) >= 0,
    decreases s.len(),
{
    if s.len() > 0 {
        assert(all_digits(s.drop_last()));
        lemma_digits_val_nonneg(s.drop_last());
    }
}

/// Extending a digit string never shrinks its value.
pub proof fn lemma_digits_val_prefix(s: Seq<char>, k: int)
    requires
        all_digits(s),
        0 <= k <= s.len(),
    ensures
        digits_val(s.subrange(0, k)) <= digits_val(s),
    decreases s.len() - k,
{
    if k < s.len() {
        let t = s.subrange(0, k + 1);
        assert(t.drop_last() =~= s.subrange(0, k));
        assert(all_digits(t));
        lemma_digits_val_nonneg(t.drop_last());
        assert(digits_val(t) == digits_val(s.subrange(0, k)) * 10 + digit_val(s[k]));
        lemma_digits_val_prefix(s, k + 1);
    } else {
        assert(s.subrange(0, k) =~= s);
    }
}

/// Parses a decimal number: defined exactly for nonempty all-digit strings
/// whose value fits the machine word.
pub fn parse_usize(s: &str) -> (r: Option<usize>)
    ensures
        r is Some <==> (s@.len() > 0 && all_digits(s@) && digits_val(s@) <= usize::MAX),
        r matches Some(v) ==> v == digits_val(s@),
{
    let len = s.unicode_len();
    if len == 0 {
        return None;
    }
    let mut acc: usize = 0;
    let mut k: usize = 0;
    while k < len
        invariant
            k <= len,
            len == s@.len(),
            len > 0,
            all_digits(s@.subrange(0, k as int)),
            acc == digits_val(s@.subrange(0, k as int)),
        decreases len - k,
    {
        let ghost prefix = s@.subrange(0, k as int);
        let ghost next_prefix = s@.subrange(0, k as int + 1);
        proof {
            assert(next_prefix.drop_last() =~= prefix);
        }
        let c = s.get_char(k);
        let u = c as u32;
        if u < 48 || u > 57 {
            assert(!is_digit(s@[k as int]));
            return None;
        }
        let d = (u - 48) as usize;
        let wide = match acc.checked_mul(10) {
            Some(m) => m.checked_add(d),
            None => None,
        };
        match wide {
            Some(n) => {
                acc = n;
            },
            None => {
                // the value no longer fits the machine word, and appending
                // further digits can only grow it
                proof {
                    assert(digits_val(next_prefix) > usize::MAX);
                    if all_digits(s@) {
                        lemma_digits_val_prefix(s@, k as int + 1);
                    }
                }
                return None;
            },
        }
        k += 1;
    }
    proof {
        assert(s@.subrange(0, len as int) =~= s@);
    }
    Some(acc)
}

/// The decimal digit string of `n`, most significant digit first.
pub open spec fn dec_str(n: int) -> Seq<char>
    decreases n,
{
    if n < 10 {
        seq![((48 + n) as u8) as char]
    } else {
        dec_str(n / 10).push(((48 + n % 10) as u8) as char)
    }
}

/// Formats `n` as its decimal digit string.
pub fn format_usize(n: usize) -> (r: String)
    ensures
        r@ == dec_str(n as int),
    decreases n,
{
    let digits = "0123456789";
    proof {
        reveal_strlit("0123456789");
    }
    if n < 10 {
        let piece = digits.substring_char(n, n + 1);
        proof {
            assert(piece@ =~= seq![((48 + n as int) as u8) as char]);
        }
        String::from_str(piece)
    } else {
        let mut s = format_usize(n / 10);
        let d = n % 10;
        let piece = digits.substring_char(d, d + 1);
        proof {
            assert(piece@ =~= seq![((48 + d as int) as u8) as char]);
        }
        s.append(piece);
        proof {
            assert(s@ =~= dec_str(n as int));
        }
        s
    }
}

} // verus!
