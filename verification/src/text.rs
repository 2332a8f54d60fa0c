//! Text as a sequence of characters: trimming, splitting, joining, searching
//! and decimal numbers.

use vstd::prelude::*;
use vstd::utf8::*;

verus! {

/// `String::push` appends one character to the end of the string.
pub assume_specification[ String::push ](s: &mut String, c: char)
    ensures
        final(s)@ == old(s)@.push(c),
;

/// The characters with the Unicode property White_Space.
pub open spec fn is_white_space(c: char) -> bool {
    ||| '\u{9}' <= c <= '\u{d}'
    ||| c == ' '
    ||| c == '\u{85}'
    ||| c == '\u{a0}'
    ||| c == '\u{1680}'
    ||| '\u{2000}' <= c <= '\u{200a}'
    ||| c == '\u{2028}'
    ||| c == '\u{2029}'
    ||| c == '\u{202f}'
    ||| c == '\u{205f}'
    ||| c == '\u{3000}'
}

pub fn white_space(c: char) -> (r: bool)
    ensures
        r == is_white_space(c),
{
    ('\u{9}' <= c && c <= '\u{d}') || c == ' ' || c == '\u{85}' || c == '\u{a0}' || c == '\u{1680}'
        || ('\u{2000}' <= c && c <= '\u{200a}') || c == '\u{2028}' || c == '\u{2029}'
        || c == '\u{202f}' || c == '\u{205f}' || c == '\u{3000}'
}

/// `s` without its leading white space.
pub open spec fn trimmed_start(s: Seq<char>) -> Seq<char>
    decreases s.len(),
{
    if s.len() > 0 && is_white_space(s.first()) {
        trimmed_start(s.drop_first())
    } else {
        s
    }
}

/// `s` without its trailing white space.
pub open spec fn trimmed_end(s: Seq<char>) -> Seq<char>
    decreases s.len(),
{
    if s.len() > 0 && is_white_space(s.last()) {
        trimmed_end(s.drop_last())
    } else {
        s
    }
}

/// `s` without the white space at its two ends.
pub open spec fn trimmed(s: Seq<char>) -> Seq<char> {
    trimmed_end(trimmed_start(s))
}

/// The characters of `s`, in order.
pub fn chars_of(s: &str) -> (r: Vec<char>)
    ensures
        r@ == s@,
{
    let mut chars: Vec<char> = Vec::new();
    for c in it: s.chars()
        invariant
            it.seq() == s@,
            chars@ == s@.take(it.index() as int),
    {
        chars.push(c);
    }
    chars
}

/// The text made of `chars[from..to]`.
pub fn text_of(chars: &Vec<char>, from: usize, to: usize) -> (r: String)
    requires
        from <= to <= chars@.len(),
    ensures
        r@ == chars@.subrange(from as int, to as int),
{
    let mut out = String::new();
    let mut i: usize = from;
    while i < to
        invariant
            from <= i <= to <= chars@.len(),
            out@ == chars@.subrange(from as int, i as int),
        decreases to - i,
    {
        out.push(chars[i]);
        i = i + 1;
    }
    out
}

/// Whether two texts are the same, character for character.
pub fn same(a: &str, b: &str) -> (r: bool)
    ensures
        r == (a@ == b@),
{
    broadcast use encode_utf8_decode_utf8;

    let left = a.as_bytes();
    let right = b.as_bytes();
    if left.len() != right.len() {
        return false;
    }
    let mut i: usize = 0;
    while i < left.len()
        invariant
            i <= left@.len(),
            left@ == encode_utf8(a@),
            right@ == encode_utf8(b@),
            left@.len() == right@.len(),
            left@.take(i as int) == right@.take(i as int),
        decreases left@.len() - i,
    {
        if left[i] != right[i] {
            assert(left@ != right@);
            return false;
        }
        i = i + 1;
    }
    assert(left@.take(i as int) == left@);
    assert(right@.take(i as int) == right@);
    assert(decode_utf8(encode_utf8(a@)) == a@);
    assert(decode_utf8(encode_utf8(b@)) == b@);
    true
}

proof fn lemma_trimmed_start(s: Seq<char>, from: int)
    requires
        0 <= from <= s.len(),
        forall|i: int| 0 <= i < from ==> is_white_space(s[i]),
        from < s.len() ==> !is_white_space(s[from]),
    ensures
        trimmed_start(s) == s.skip(from),
    decreases from,
{
    if from > 0 {
        assert forall|i: int| 0 <= i < from - 1 implies is_white_space(s.drop_first()[i]) by {
            assert(s.drop_first()[i] == s[i + 1]);
        }
        lemma_trimmed_start(s.drop_first(), from - 1);
        assert(s.drop_first().skip(from - 1) == s.skip(from));
    } else {
        assert(s.skip(0) == s);
    }
}

proof fn lemma_trimmed_end(s: Seq<char>, to: int)
    requires
        0 <= to <= s.len(),
        forall|i: int| to <= i < s.len() ==> is_white_space(s[i]),
        to > 0 ==> !is_white_space(s[to - 1]),
    ensures
        trimmed_end(s) == s.take(to),
    decreases s.len() - to,
{
    if to < s.len() {
        lemma_trimmed_end(s.drop_last(), to);
        assert(s.drop_last().take(to) == s.take(to));
    } else {
        assert(s.take(to) == s);
    }
}

/// `s` without the white space at its two ends.
pub fn trim(s: &str) -> (r: String)
    ensures
        r@ == trimmed(s@),
{
    let chars = chars_of(s);
    let mut from: usize = 0;
    while from < chars.len() && white_space(chars[from])
        invariant
            from <= chars@.len(),
            forall|i: int| 0 <= i < from ==> is_white_space(chars@[i]),
        decreases chars@.len() - from,
    {
        from = from + 1;
    }
    let mut to: usize = chars.len();
    while from < to && white_space(chars[to - 1])
        invariant
            from <= to <= chars@.len(),
            forall|i: int| to <= i < chars@.len() ==> is_white_space(chars@[i]),
        decreases to,
    {
        to = to - 1;
    }
    proof {
        lemma_trimmed_start(s@, from as int);
        let rest = s@.skip(from as int);
        lemma_trimmed_end(rest, to - from);
        assert(rest.take(to - from) == s@.subrange(from as int, to as int));
    }
    text_of(&chars, from, to)
}

/// A text with no white space at either end is its own trimming.
pub proof fn lemma_trimmed_fixed(s: Seq<char>)
    requires
        s.len() > 0 ==> !is_white_space(s.first()) && !is_white_space(s.last()),
    ensures
        trimmed(s) == s,
{
}

/// The parts of `s` between the characters that occur in `seps`. There is
/// always one part more than there are separators.
pub open spec fn split(s: Seq<char>, seps: Seq<char>) -> Seq<Seq<char>>
    decreases s.len(),
{
    if s.len() == 0 {
        seq![Seq::<char>::empty()]
    } else {
        let parts = split(s.drop_last(), seps);
        if seps.contains(s.last()) {
            parts.push(Seq::<char>::empty())
        } else {
            parts.drop_last().push(parts.last().push(s.last()))
        }
    }
}

pub proof fn lemma_split_not_empty(s: Seq<char>, seps: Seq<char>)
    ensures
        split(s, seps).len() > 0,
    decreases s.len(),
{
    if s.len() > 0 {
        lemma_split_not_empty(s.drop_last(), seps);
    }
}

/// None of these characters occurs in the text.
pub open spec fn free_of(s: Seq<char>, chars: Seq<char>) -> bool {
    forall|i: int| 0 <= i < s.len() ==> !chars.contains(#[trigger] s[i])
}

pub proof fn lemma_trimmed_start_shrinks(s: Seq<char>)
    ensures
        trimmed_start(s).len() <= s.len(),
        trimmed_start(s) == s.skip(s.len() - trimmed_start(s).len()),
        trimmed_start(s).len() > 0 ==> !is_white_space(trimmed_start(s).first()),
    decreases s.len(),
{
    if s.len() > 0 && is_white_space(s.first()) {
        lemma_trimmed_start_shrinks(s.drop_first());
        let rest = trimmed_start(s);
        assert(rest == s.drop_first().skip(s.len() - 1 - rest.len()));
        assert(rest == s.skip(s.len() - rest.len()));
    } else {
        assert(s.skip(0) == s);
    }
}

pub proof fn lemma_trimmed_end_shrinks(s: Seq<char>)
    ensures
        trimmed_end(s).len() <= s.len(),
        trimmed_end(s) == s.take(trimmed_end(s).len() as int),
        trimmed_end(s).len() > 0 ==> !is_white_space(trimmed_end(s).last()),
    decreases s.len(),
{
    if s.len() > 0 && is_white_space(s.last()) {
        lemma_trimmed_end_shrinks(s.drop_last());
        let rest = trimmed_end(s);
        assert(rest == s.drop_last().take(rest.len() as int));
        assert(rest == s.take(rest.len() as int));
    } else {
        assert(s.take(s.len() as int) == s);
    }
}

/// A trimmed text is a stretch of the whole, with no white space at its
/// ends, and trimming it again changes nothing.
pub proof fn lemma_trimmed(s: Seq<char>)
    ensures
        exists|from: int, to: int|
            0 <= from <= to <= s.len() && trimmed(s) == #[trigger] s.subrange(from, to),
        trimmed(trimmed(s)) == trimmed(s),
        trimmed(s).len() > 0 ==> !is_white_space(trimmed(s).first())
            && !is_white_space(trimmed(s).last()),
{
    lemma_trimmed_start_shrinks(s);
    let started = trimmed_start(s);
    lemma_trimmed_end_shrinks(started);
    let t = trimmed(s);
    let from = s.len() - started.len();
    let to = from + t.len();
    assert(t == started.take(t.len() as int));
    assert(started.take(t.len() as int) == s.subrange(from, to));
    if t.len() > 0 {
        assert(t.first() == started.first());
    }
    lemma_trimmed_fixed(t);
}

/// What stands between separators holds none of them.
pub proof fn lemma_split_parts_free(s: Seq<char>, seps: Seq<char>)
    ensures
        forall|i: int|
            0 <= i < split(s, seps).len() ==> free_of(#[trigger] split(s, seps)[i], seps),
    decreases s.len(),
{
    if s.len() > 0 {
        lemma_split_parts_free(s.drop_last(), seps);
        lemma_split_not_empty(s.drop_last(), seps);
        let parts = split(s.drop_last(), seps);
        let all = split(s, seps);
        assert forall|i: int| 0 <= i < all.len() implies free_of(#[trigger] all[i], seps) by {
            if seps.contains(s.last()) {
                if i < parts.len() {
                    assert(all[i] == parts[i]);
                }
            } else if i < parts.len() - 1 {
                assert(all[i] == parts[i]);
            } else {
                assert(free_of(parts[parts.len() - 1], seps));
                let last = parts.last();
                assert(all[i] == last.push(s.last()));
                assert forall|j: int| 0 <= j < all[i].len() implies !seps.contains(#[trigger] all[i][j]) by {
                    if j < last.len() {
                        assert(all[i][j] == last[j]);
                    }
                }
            }
        }
    }
}

/// The parts of a text without some characters are without them too.
pub proof fn lemma_split_keeps_free(s: Seq<char>, seps: Seq<char>, chars: Seq<char>)
    requires
        free_of(s, chars),
    ensures
        forall|i: int|
            0 <= i < split(s, seps).len() ==> free_of(#[trigger] split(s, seps)[i], chars),
    decreases s.len(),
{
    if s.len() > 0 {
        let less = s.drop_last();
        assert forall|i: int| 0 <= i < less.len() implies !chars.contains(#[trigger] less[i]) by {
            assert(less[i] == s[i]);
        }
        assert(!chars.contains(s[s.len() - 1]));
        lemma_split_keeps_free(less, seps, chars);
        lemma_split_not_empty(less, seps);
        let parts = split(less, seps);
        let all = split(s, seps);
        assert forall|i: int| 0 <= i < all.len() implies free_of(#[trigger] all[i], chars) by {
            if seps.contains(s.last()) {
                if i < parts.len() {
                    assert(all[i] == parts[i]);
                }
            } else if i < parts.len() - 1 {
                assert(all[i] == parts[i]);
            } else {
                let last = parts[parts.len() - 1];
                assert(free_of(last, chars));
                assert forall|j: int| 0 <= j < all[i].len() implies !chars.contains(
                    #[trigger] all[i][j],
                ) by {
                    if j < last.len() {
                        assert(all[i][j] == last[j]);
                    }
                }
            }
        }
    }
}

/// A text without separators is its own only part.
pub proof fn lemma_split_whole(s: Seq<char>, seps: Seq<char>)
    requires
        free_of(s, seps),
    ensures
        split(s, seps) == seq![s],
    decreases s.len(),
{
    if s.len() > 0 {
        let less = s.drop_last();
        assert forall|i: int| 0 <= i < less.len() implies !seps.contains(#[trigger] less[i]) by {
            assert(less[i] == s[i]);
        }
        assert(!seps.contains(s[s.len() - 1]));
        lemma_split_whole(less, seps);
        assert(less.push(s.last()) == s);
    } else {
        assert(s == Seq::<char>::empty());
    }
}

/// Trimming adds no character.
pub proof fn lemma_trimmed_keeps_free(s: Seq<char>, chars: Seq<char>)
    requires
        free_of(s, chars),
    ensures
        free_of(trimmed(s), chars),
{
    lemma_trimmed(s);
    let t = trimmed(s);
    let (from, to) = choose|from: int, to: int|
        0 <= from <= to <= s.len() && t == #[trigger] s.subrange(from, to);
    assert forall|i: int| 0 <= i < t.len() implies !chars.contains(#[trigger] t[i]) by {
        assert(t[i] == s[from + i]);
    }
}

fn is_one_of(c: char, set: &Vec<char>) -> (r: bool)
    ensures
        r == set@.contains(c),
{
    for i in 0..set.len()
        invariant
            forall|j: int| 0 <= j < i ==> set@[j] != c,
    {
        if set[i] == c {
            return true;
        }
    }
    false
}

/// The views of the texts in `parts`.
pub open spec fn views(parts: Seq<String>) -> Seq<Seq<char>> {
    Seq::new(parts.len(), |i: int| parts[i]@)
}

/// The parts of `s` between the characters of `seps`.
pub fn split_text(s: &str, seps: &Vec<char>) -> (r: Vec<String>)
    ensures
        views(r@) == split(s@, seps@),
{
    let chars = chars_of(s);
    let mut parts: Vec<String> = Vec::new();
    let mut current = String::new();
    let mut i: usize = 0;
    assert(s@.take(0) == Seq::<char>::empty());
    assert(views(parts@).push(current@) == split(s@.take(0), seps@));
    while i < chars.len()
        invariant
            i <= chars@.len(),
            chars@ == s@,
            views(parts@).push(current@) == split(s@.take(i as int), seps@),
        decreases chars@.len() - i,
    {
        let c = chars[i];
        let ghost before = views(parts@);
        proof {
            assert(s@.take(i + 1).drop_last() == s@.take(i as int));
            assert(s@.take(i + 1).last() == c);
            assert(before.push(current@).drop_last() == before);
        }
        if is_one_of(c, seps) {
            let ghost done = current@;
            parts.push(current);
            current = String::new();
            assert(views(parts@) == before.push(done));
        } else {
            current.push(c);
        }
        i = i + 1;
    }
    assert(s@.take(i as int) == s@);
    let ghost before = views(parts@);
    let ghost last = current@;
    parts.push(current);
    assert(views(parts@) == before.push(last));
    parts
}

/// The parts laid end to end with `sep` between each two.
pub open spec fn joined(parts: Seq<Seq<char>>, sep: Seq<char>) -> Seq<char>
    decreases parts.len(),
{
    if parts.len() == 0 {
        Seq::empty()
    } else {
        let front = joined(parts.drop_last(), sep);
        let glue = if parts.len() > 1 { sep } else { Seq::empty() };
        front + glue + parts.last()
    }
}

pub fn join(parts: &Vec<String>, sep: &str) -> (r: String)
    ensures
        r@ == joined(views(parts@), sep@),
{
    let mut out = String::new();
    let ghost all = views(parts@);
    for i in 0..parts.len()
        invariant
            all == views(parts@),
            out@ == joined(all.take(i as int), sep@),
    {
        proof {
            assert(all.take(i + 1).drop_last() == all.take(i as int));
        }
        if i > 0 {
            out.append(sep);
        }
        out.append(parts[i].as_str());
        assert(out@ == joined(all.take(i + 1), sep@));
    }
    assert(all.take(parts@.len() as int) == all);
    out
}

/// `pat` stands in `s` from position `at` on.
pub open spec fn occurs_at(s: Seq<char>, pat: Seq<char>, at: int) -> bool {
    0 <= at && at + pat.len() <= s.len() && s.subrange(at, at + pat.len()) == pat
}

/// Where `pat` first stands in `s` at or after `from`.
pub open spec fn found_from(s: Seq<char>, pat: Seq<char>, from: int) -> Option<int>
    decreases s.len() - from + 1,
{
    if from + pat.len() > s.len() || from < 0 {
        None
    } else if occurs_at(s, pat, from) {
        Some(from)
    } else {
        found_from(s, pat, from + 1)
    }
}

fn stands_at(s: &Vec<char>, pat: &Vec<char>, at: usize) -> (r: bool)
    requires
        at + pat@.len() <= s@.len(),
    ensures
        r == occurs_at(s@, pat@, at as int),
{
    let len = s.len();
    let mut i: usize = 0;
    while i < pat.len()
        invariant
            i <= pat@.len(),
            len == s@.len(),
            at + pat@.len() <= len,
            forall|j: int| 0 <= j < i ==> s@[at + j] == pat@[j],
        decreases pat@.len() - i,
    {
        if s[at + i] != pat[i] {
            assert(s@.subrange(at as int, at + pat@.len())[i as int] != pat@[i as int]);
            return false;
        }
        i = i + 1;
    }
    assert(s@.subrange(at as int, at + pat@.len()) == pat@);
    true
}

/// Where `pat` first stands in `s` at or after `from`.
pub fn find_from(s: &Vec<char>, pat: &Vec<char>, from: usize) -> (r: Option<usize>)
    requires
        from <= s@.len(),
    ensures
        match (r, found_from(s@, pat@, from as int)) {
            (Some(i), Some(j)) => i == j && from <= i && i + pat@.len() <= s@.len(),
            (None, None) => true,
            _ => false,
        },
{
    let mut at: usize = from;
    while pat.len() <= s.len() - at
        invariant
            from <= at <= s@.len(),
            found_from(s@, pat@, from as int) == found_from(s@, pat@, at as int),
        decreases s@.len() - at,
    {
        if stands_at(s, pat, at) {
            return Some(at);
        }
        assert(pat@.len() > 0) by {
            if pat@.len() == 0 {
                assert(s@.subrange(at as int, at as int) == pat@);
            }
        }
        at = at + 1;
    }
    None
}

/// `pat` stands somewhere in `s`.
pub open spec fn contains(s: Seq<char>, pat: Seq<char>) -> bool {
    found_from(s, pat, 0) is Some
}

/// What `contains` says, position by position.
pub proof fn lemma_contains(s: Seq<char>, pat: Seq<char>, from: int)
    requires
        0 <= from,
    ensures
        found_from(s, pat, from) is Some <==> exists|i: int| from <= i && occurs_at(s, pat, i),
        found_from(s, pat, from) matches Some(i) ==> from <= i && occurs_at(s, pat, i),
    decreases s.len() - from + 1,
{
    if from + pat.len() <= s.len() && !occurs_at(s, pat, from) {
        lemma_contains(s, pat, from + 1);
        if exists|i: int| from <= i && occurs_at(s, pat, i) {
            let i = choose|i: int| from <= i && occurs_at(s, pat, i);
            assert(from + 1 <= i && occurs_at(s, pat, i));
        }
    }
}

pub fn text_contains(s: &str, pat: &str) -> (r: bool)
    ensures
        r == contains(s@, pat@),
{
    find_from(&chars_of(s), &chars_of(pat), 0).is_some()
}

/// `c` with the letters A to Z made small.
pub open spec fn lower(c: char) -> char {
    if 'A' <= c <= 'Z' {
        (c as u8 + 32) as u8 as char
    } else {
        c
    }
}

/// `s` with the letters A to Z made small.
pub open spec fn lowered(s: Seq<char>) -> Seq<char> {
    s.map_values(|c: char| lower(c))
}

pub fn lowercase(s: &str) -> (r: String)
    ensures
        r@ == lowered(s@),
{
    let chars = chars_of(s);
    let mut out = String::new();
    for i in 0..chars.len()
        invariant
            chars@ == s@,
            out@ == lowered(s@.take(i as int)),
    {
        let c = chars[i];
        if 'A' <= c && c <= 'Z' {
            out.push((c as u8 + 32) as char);
        } else {
            out.push(c);
        }
        assert(out@ == lowered(s@.take(i + 1)));
    }
    assert(s@.take(chars@.len() as int) == s@);
    out
}

/// The decimal digit `d`.
pub open spec fn digit(d: int) -> char {
    (48 + d) as u8 as char
}

/// `n` in decimal, with no leading zeros.
pub open spec fn nat_text(n: nat) -> Seq<char>
    decreases n,
{
    if n < 10 {
        seq![digit(n as int)]
    } else {
        nat_text(n / 10).push(digit((n % 10) as int))
    }
}

/// `n` in decimal, with a minus sign in front if it is negative.
pub open spec fn int_text(n: int) -> Seq<char> {
    if n < 0 {
        seq!['-'] + nat_text((-n) as nat)
    } else {
        nat_text(n as nat)
    }
}

fn push_decimal(out: &mut String, n: u64)
    ensures
        final(out)@ == old(out)@ + nat_text(n as nat),
    decreases n,
{
    if n >= 10 {
        push_decimal(out, n / 10);
    }
    let d: u8 = (n % 10) as u8;
    out.push((48 + d) as char);
    assert(out@ == old(out)@ + nat_text(n as nat));
}

pub fn unsigned_text(n: u64) -> (r: String)
    ensures
        r@ == int_text(n as int),
{
    let mut out = String::new();
    push_decimal(&mut out, n);
    assert(out@ == nat_text(n as nat));
    out
}

pub fn signed_text(n: i64) -> (r: String)
    ensures
        r@ == int_text(n as int),
{
    let mut out = String::new();
    if n < 0 {
        out.push('-');
        let size: u64 = (-(n as i128)) as u64;
        push_decimal(&mut out, size);
    } else {
        push_decimal(&mut out, n as u64);
    }
    assert(out@ == int_text(n as int));
    out
}

/// The first `max` characters of `s`, or all of them if there are fewer.
pub open spec fn first_chars(s: Seq<char>, max: nat) -> Seq<char> {
    if s.len() <= max {
        s
    } else {
        s.take(max as int)
    }
}

pub fn take_chars(s: &str, max: usize) -> (r: String)
    ensures
        r@ == first_chars(s@, max as nat),
{
    let chars = chars_of(s);
    let to = if chars.len() <= max {
        chars.len()
    } else {
        max
    };
    assert(s@.take(s@.len() as int) == s@);
    text_of(&chars, 0, to)
}

/// A character is white space if and only if Unicode gives it that property.
pub proof fn lemma_white_space(c: char)
    ensures
        is_white_space(c) <==> (c as u32 == 32 || 9 <= c as u32 <= 13 || c as u32 == 0x85 || c as u32
            == 0xa0 || c as u32 == 0x1680 || 0x2000 <= c as u32 <= 0x200a || c as u32 == 0x2028
            || c as u32 == 0x2029 || c as u32 == 0x202f || c as u32 == 0x205f || c as u32
            == 0x3000),
{
}

/// Trimming takes away the white space at the two ends of a text, all of it and
/// nothing else.
pub proof fn lemma_trimming_takes_only_the_ends(s: Seq<char>)
    ensures
        exists|lead: Seq<char>, tail: Seq<char>|
            {
                &&& s == #[trigger] (lead + trimmed(s) + tail)
                &&& forall|i: int| 0 <= i < lead.len() ==> is_white_space(lead[i])
                &&& forall|i: int| 0 <= i < tail.len() ==> is_white_space(tail[i])
            },
        trimmed(s).len() > 0 ==> !is_white_space(trimmed(s)[0]) && !is_white_space(
            trimmed(s)[trimmed(s).len() - 1],
        ),
{
    lemma_trimmed(s);
    lemma_start_is_white(s);
    lemma_end_is_white(trimmed_start(s));
    lemma_trimmed_start_shrinks(s);
    lemma_trimmed_end_shrinks(trimmed_start(s));
    let started = trimmed_start(s);
    let lead = s.take(s.len() - started.len());
    let tail = started.skip(trimmed(s).len() as int);
    assert(s == lead + trimmed(s) + tail);
}

proof fn lemma_start_is_white(s: Seq<char>)
    ensures
        forall|i: int| 0 <= i < s.len() - trimmed_start(s).len() ==> is_white_space(s[i]),
    decreases s.len(),
{
    if s.len() > 0 && is_white_space(s.first()) {
        lemma_start_is_white(s.drop_first());
        assert forall|i: int| 0 <= i < s.len() - trimmed_start(s).len() implies is_white_space(
            s[i],
        ) by {
            if i > 0 {
                assert(s[i] == s.drop_first()[i - 1]);
            }
        }
    }
}

proof fn lemma_end_is_white(s: Seq<char>)
    ensures
        forall|i: int| trimmed_end(s).len() <= i < s.len() ==> is_white_space(s[i]),
    decreases s.len(),
{
    if s.len() > 0 && is_white_space(s.last()) {
        lemma_end_is_white(s.drop_last());
        assert forall|i: int| trimmed_end(s).len() <= i < s.len() implies is_white_space(s[i]) by {
            if i < s.len() - 1 {
                assert(s[i] == s.drop_last()[i]);
            }
        }
    }
}

/// A text is free of some characters if and only if none of its characters is
/// one of them.
pub proof fn lemma_free_of(s: Seq<char>, chars: Seq<char>)
    ensures
        free_of(s, chars) <==> (forall|i: int, j: int|
            0 <= i < s.len() && 0 <= j < chars.len() ==> #[trigger] s[i] != #[trigger] chars[j]),
{
    if free_of(s, chars) {
        assert forall|i: int, j: int|
            0 <= i < s.len() && 0 <= j < chars.len() implies #[trigger] s[i]
            != #[trigger] chars[j] by {
            assert(!chars.contains(s[i]));
        }
    }
}

/// Splitting at one character and joining with it are the inverse of each
/// other.
pub proof fn lemma_split_then_join(s: Seq<char>, c: char)
    ensures
        joined(split(s, seq![c]), seq![c]) == s,
    decreases s.len(),
{
    let seps = seq![c];
    if s.len() == 0 {
        let one = seq![Seq::<char>::empty()];
        assert(one.drop_last() == Seq::<Seq<char>>::empty());
        assert(joined(one.drop_last(), seps) == Seq::<char>::empty());
        assert(joined(one, seps) == s);
    } else {
        let less = s.drop_last();
        lemma_split_then_join(less, c);
        lemma_split_not_empty(less, seps);
        let parts = split(less, seps);
        if seps.contains(s.last()) {
            assert(s.last() == c);
            let all = parts.push(Seq::<char>::empty());
            assert(all.drop_last() == parts);
            assert(joined(all, seps) == less + seps + Seq::<char>::empty());
            assert(less + seps + Seq::<char>::empty() == s);
        } else {
            let front = parts.drop_last();
            let all = front.push(parts.last().push(s.last()));
            assert(all.drop_last() == front);
            assert(all.last() == parts.last().push(s.last()));
            let glue = if parts.len() > 1 {
                seps
            } else {
                Seq::empty()
            };
            assert(joined(parts, seps) == joined(front, seps) + glue + parts.last());
            assert(joined(all, seps) == joined(front, seps) + glue + all.last());
            assert(joined(all, seps) == less.push(s.last()));
            assert(less.push(s.last()) == s);
        }
    }
}

/// Joining puts the separator between each two neighbours and nowhere else.
pub proof fn lemma_join_one_more(parts: Seq<Seq<char>>, part: Seq<char>, sep: Seq<char>)
    ensures
        joined(Seq::empty(), sep) == Seq::<char>::empty(),
        joined(seq![part], sep) == part,
        parts.len() > 0 ==> joined(parts.push(part), sep) == joined(parts, sep) + sep + part,
{
    assert(seq![part].drop_last() == Seq::<Seq<char>>::empty());
    assert(joined(seq![part].drop_last(), sep) == Seq::<char>::empty());
    assert(joined(seq![part], sep) == Seq::<char>::empty() + Seq::<char>::empty() + part);
    assert(parts.push(part).drop_last() == parts);
}

/// A search finds the first place at which the pattern stands, if there is any.
pub proof fn lemma_found_is_first(s: Seq<char>, pat: Seq<char>, from: int)
    requires
        0 <= from,
    ensures
        match found_from(s, pat, from) {
            Some(at) => {
                &&& from <= at
                &&& at + pat.len() <= s.len()
                &&& s.subrange(at, at + pat.len()) == pat
                &&& forall|i: int|
                    from <= i < at ==> #[trigger] s.subrange(i, i + pat.len()) != pat
            },
            None => forall|i: int|
                from <= i && i + pat.len() <= s.len() ==> #[trigger] s.subrange(i, i + pat.len())
                    != pat,
        },
        contains(s, pat) <==> exists|i: int|
            0 <= i && i + pat.len() <= s.len() && #[trigger] s.subrange(i, i + pat.len()) == pat,
    decreases s.len() - from + 1,
{
    if from + pat.len() <= s.len() && !occurs_at(s, pat, from) {
        lemma_found_is_first(s, pat, from + 1);
    }
    lemma_contains(s, pat, 0);
    if exists|i: int|
        0 <= i && i + pat.len() <= s.len() && #[trigger] s.subrange(i, i + pat.len()) == pat {
        let i = choose|i: int|
            0 <= i && i + pat.len() <= s.len() && #[trigger] s.subrange(i, i + pat.len()) == pat;
        assert(occurs_at(s, pat, i));
    }
    if contains(s, pat) {
        let i = choose|i: int| 0 <= i && occurs_at(s, pat, i);
        assert(s.subrange(i, i + pat.len()) == pat);
    }
}

/// Lowering changes the letters A to Z to a to z, each in its place, and
/// nothing else.
pub proof fn lemma_lowered(s: Seq<char>, i: int)
    requires
        0 <= i < s.len(),
    ensures
        lowered(s).len() == s.len(),
        65 <= s[i] as u32 <= 90 ==> lowered(s)[i] as u32 == s[i] as u32 + 32,
        !(65 <= s[i] as u32 <= 90) ==> lowered(s)[i] == s[i],
{
}

/// A number's text is that of its leading digits and then its last; a negative
/// number has a minus sign before the text of its opposite.
pub proof fn lemma_number_text(n: int)
    ensures
        0 <= n < 10 ==> int_text(n).len() == 1 && int_text(n)[0] as u32 == 48 + n,
        n >= 10 ==> int_text(n) == int_text(n / 10) + int_text(n % 10),
        n < 0 ==> int_text(n) == seq!['-'] + int_text(-n),
{
    if n >= 10 {
        assert(int_text(n / 10) + int_text(n % 10) == nat_text((n / 10) as nat).push(
            digit(n % 10),
        ));
    }
}

/// The first characters of a text begin it, and are all of it or as many as
/// were asked for.
pub proof fn lemma_first_chars(s: Seq<char>, max: nat)
    ensures
        first_chars(s, max).len() == if s.len() < max {
            s.len()
        } else {
            max
        },
        first_chars(s, max) == s.take(first_chars(s, max).len() as int),
{
}

/// A character that is not white space keeps what stands around it from being
/// trimmed on that side.
pub proof fn lemma_trimmed_around(before: Seq<char>, c: char, after: Seq<char>)
    requires
        !is_white_space(c),
    ensures
        trimmed(before + seq![c] + after) == trimmed_start(before) + seq![c] + trimmed_end(after),
{
    lemma_start_before(before, seq![c] + after);
    assert(before + seq![c] + after == before + (seq![c] + after));
    let start = trimmed_start(before);
    lemma_end_behind(start + seq![c], after);
    assert(start + (seq![c] + after) == (start + seq![c]) + after);
}

proof fn lemma_start_before(before: Seq<char>, rest: Seq<char>)
    requires
        rest.len() > 0,
        !is_white_space(rest[0]),
    ensures
        trimmed_start(before + rest) == trimmed_start(before) + rest,
    decreases before.len(),
{
    if before.len() == 0 {
        assert(before + rest == rest);
        assert(trimmed_start(before) + rest == rest);
    } else {
        lemma_start_before(before.drop_first(), rest);
        assert((before + rest).drop_first() == before.drop_first() + rest);
        assert((before + rest).first() == before.first());
    }
}

proof fn lemma_end_behind(rest: Seq<char>, after: Seq<char>)
    requires
        rest.len() > 0,
        !is_white_space(rest.last()),
    ensures
        trimmed_end(rest + after) == rest + trimmed_end(after),
    decreases after.len(),
{
    if after.len() == 0 {
        assert(rest + after == rest);
        assert(rest + trimmed_end(after) == rest);
    } else {
        lemma_end_behind(rest, after.drop_last());
        assert((rest + after).drop_last() == rest + after.drop_last());
        assert((rest + after).last() == after.last());
    }
}

/// Trimming one end first makes no difference.
pub proof fn lemma_trimmed_twice(s: Seq<char>)
    ensures
        trimmed(trimmed_start(s)) == trimmed(s),
        trimmed(trimmed_end(s)) == trimmed(s),
    decreases s.len(),
{
    lemma_start_settles(s);
    if s.len() > 0 && is_white_space(s.last()) {
        lemma_trimmed_twice(s.drop_last());
        lemma_start_without_last(s);
    }
}

proof fn lemma_start_settles(s: Seq<char>)
    ensures
        trimmed_start(trimmed_start(s)) == trimmed_start(s),
    decreases s.len(),
{
    if s.len() > 0 && is_white_space(s.first()) {
        lemma_start_settles(s.drop_first());
    }
}

/// White space at the end goes, whether the start is trimmed before or after.
proof fn lemma_start_without_last(s: Seq<char>)
    requires
        s.len() > 0,
        is_white_space(s.last()),
    ensures
        trimmed(s) == trimmed(s.drop_last()),
    decreases s.len(),
{
    if is_white_space(s.first()) {
        if s.len() > 1 {
            lemma_start_without_last(s.drop_first());
            assert(s.drop_first().drop_last() == s.drop_last().drop_first());
            assert(s.drop_last().first() == s.first());
        } else {
            assert(s.drop_first() == s.drop_last());
            assert(trimmed_start(s.drop_first()) == s.drop_first());
            assert(trimmed_start(s) == s.drop_first());
        }
    } else {
        assert(trimmed_start(s) == s);
        if s.len() > 1 {
            assert(s.drop_last().first() == s.first());
            assert(trimmed_start(s.drop_last()) == s.drop_last());
        }
    }
}

/// The parts of two texts with a separator between are those of the one and
/// then those of the other.
pub proof fn lemma_split_in_turn(first: Seq<char>, sep: char, second: Seq<char>, seps: Seq<char>)
    requires
        seps.contains(sep),
    ensures
        split(first + seq![sep] + second, seps) == split(first, seps) + split(second, seps),
    decreases second.len(),
{
    let all = first + seq![sep] + second;
    if second.len() == 0 {
        assert(all == first.push(sep));
        assert(all.drop_last() == first);
        assert(split(second, seps) == seq![Seq::<char>::empty()]);
        assert(split(first, seps) + split(second, seps) == split(first, seps).push(Seq::empty()));
    } else {
        let less = second.drop_last();
        lemma_split_in_turn(first, sep, less, seps);
        lemma_split_not_empty(less, seps);
        assert(all.drop_last() == first + seq![sep] + less);
        assert(all.last() == second.last());
        let front = split(first, seps);
        let parts = split(less, seps);
        assert((front + parts).last() == parts.last());
        assert((front + parts).drop_last() == front + parts.drop_last());
        if seps.contains(second.last()) {
            assert((front + parts).push(Seq::empty()) == front + parts.push(Seq::empty()));
        } else {
            let grown = parts.last().push(second.last());
            assert((front + parts.drop_last()).push(grown) == front + parts.drop_last().push(
                grown,
            ));
        }
    }
}

/// A part in front comes first, with the separator behind it.
pub proof fn lemma_join_in_front(part: Seq<char>, parts: Seq<Seq<char>>, sep: Seq<char>)
    requires
        parts.len() > 0,
    ensures
        joined(seq![part] + parts, sep) == part + sep + joined(parts, sep),
    decreases parts.len(),
{
    let all = seq![part] + parts;
    let less = parts.drop_last();
    assert(all.drop_last() == seq![part] + less);
    assert(all.last() == parts.last());
    if less.len() == 0 {
        assert(all.drop_last() == seq![part]);
        lemma_join_one_more(parts, part, sep);
        lemma_join_one_more(parts, parts.last(), sep);
        assert(parts == seq![parts.last()]);
    } else {
        lemma_join_in_front(part, less, sep);
        assert(joined(parts, sep) == joined(less, sep) + sep + parts.last());
        assert(joined(all, sep) == part + sep + joined(less, sep) + sep + parts.last());
    }
}

/// A character is found where it first stands, and not found where it does not
/// stand.
pub proof fn lemma_found_char(before: Seq<char>, c: char, after: Seq<char>)
    requires
        !before.contains(c),
    ensures
        found_from(before + seq![c] + after, seq![c], 0) == Some(before.len() as int),
        found_from(before, seq![c], 0) is None,
{
    let all = before + seq![c] + after;
    assert forall|i: int| 0 <= i < before.len() implies #[trigger] all[i] != c by {
        assert(all[i] == before[i]);
    }
    lemma_char_at(all, c, 0, before.len() as int);
    lemma_no_char(before, c, 0);
}

proof fn lemma_char_occurs(s: Seq<char>, c: char, at: int)
    requires
        0 <= at < s.len(),
    ensures
        occurs_at(s, seq![c], at) <==> s[at] == c,
{
    if s[at] == c {
        assert(s.subrange(at, at + 1) == seq![c]);
    } else {
        assert(s.subrange(at, at + 1)[0] == s[at]);
    }
}

proof fn lemma_char_at(s: Seq<char>, c: char, from: int, at: int)
    requires
        0 <= from <= at < s.len(),
        s[at] == c,
        forall|i: int| from <= i < at ==> #[trigger] s[i] != c,
    ensures
        found_from(s, seq![c], from) == Some(at),
    decreases at - from,
{
    lemma_char_occurs(s, c, from);
    if from < at {
        lemma_char_at(s, c, from + 1, at);
    }
}

proof fn lemma_no_char(s: Seq<char>, c: char, from: int)
    requires
        0 <= from,
        forall|i: int| from <= i < s.len() ==> #[trigger] s[i] != c,
    ensures
        found_from(s, seq![c], from) is None,
    decreases s.len() - from,
{
    if from < s.len() {
        lemma_char_occurs(s, c, from);
        lemma_no_char(s, c, from + 1);
    }
}

/// What contracts say of a list of texts is what each of them holds, in order.
pub proof fn lemma_texts_seen_whole(texts: Seq<String>, i: int)
    ensures
        views(texts).len() == texts.len(),
        0 <= i < texts.len() ==> views(texts)[i] == texts[i]@,
{
}

} // verus!
