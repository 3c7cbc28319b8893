//! Version strings: reading dotted numbers, ordering them, and taking the
//! version out of a release tag.

use vstd::prelude::*;
use crate::order::{lemma_seq_lt_asymmetric, lemma_seq_lt_irreflexive, lemma_seq_lt_total, lemma_seq_lt_transitive, numbers_less, seq_lt};
use crate::text::{
    after_first, char_is_ascii_digit, chars_of, find_char_in, has_prefix, is_ascii_digit, leading_run,
    lemma_split_step, lowercase_of, opt_view, split_char, str_starts_with, string_from_chars, strip_leading, to_lowercase,
    trim, trim_string,
};

verus! {

/// The numeric value of the decimal digit `c`.
pub open spec fn digit_value(c: char) -> int {
    c as int - '0' as int
}

/// Every character of `s` is an ASCII digit.
pub open spec fn all_digits(s: Seq<char>) -> bool {
    forall|i: int| 0 <= i < s.len() ==> is_ascii_digit(#[trigger] s[i])
}

/// The value of the digit string `s`, read in base ten (0 for no digits).
pub open spec fn decimal_value(s: Seq<char>) -> int
    decreases s.len(),
{
    if s.len() == 0 {
        0
    } else {
        decimal_value(s.drop_last()) * 10 + digit_value(s.last())
    }
}

/// The digits that `u32::from_str` reads: `s` without one leading `+`.
pub open spec fn unsigned_digits(s: Seq<char>) -> Seq<char> {
    if s.len() > 0 && s[0] == '+' {
        s.drop_first()
    } else {
        s
    }
}

/// What `s.parse::<u32>()` gives: the value of one or more ASCII digits after
/// an optional `+`, when it fits in a `u32`; `None` for anything else.
pub open spec fn parse_u32(s: Seq<char>) -> Option<u32> {
    let d = unsigned_digits(s);
    if d.len() > 0 && all_digits(d) && decimal_value(d) <= u32::MAX {
        Some(decimal_value(d) as u32)
    } else {
        None
    }
}

/// One component of a version: its number, or 0 where it is no number.
pub open spec fn version_part(s: Seq<char>) -> u32 {
    match parse_u32(s) {
        Some(n) => n,
        None => 0,
    }
}

/// The components of the dotted version `v`.
pub open spec fn version_numbers(v: Seq<char>) -> Seq<u32> {
    split_char(v, '.').map_values(|p: Seq<char>| version_part(p))
}

/// The version `online` is newer than the version `local`.
pub open spec fn version_newer(local: Seq<char>, online: Seq<char>) -> bool {
    seq_lt(version_numbers(local), version_numbers(online))
}


/// The prefix that marks a tag of the form `version_<version>`.
pub open spec fn version_tag_prefix() -> Seq<char> {
    seq!['v', 'e', 'r', 's', 'i', 'o', 'n', '_']
}

/// The version that the already trimmed tag `t` names, given `lowered`, the
/// lowercase form of `t`: what follows the first `_` where `lowered` starts
/// with `version_`; `t` without its leading `v`s where `t` starts with `v`;
/// `t` itself where it starts with an ASCII digit; else none.
pub open spec fn version_from_trimmed(t: Seq<char>, lowered: Seq<char>) -> Option<Seq<char>> {
    if has_prefix(lowered, version_tag_prefix()) {
        after_first(t, '_')
    } else if t.len() > 0 && t[0] == 'v' {
        Some(strip_leading(t, 'v'))
    } else if t.len() > 0 && is_ascii_digit(t[0]) {
        Some(t)
    } else {
        None
    }
}

/// The version that the release tag `tag` names (see
/// [`version_from_trimmed`]); the tag is trimmed first.
pub open spec fn version_from_tag(tag: Seq<char>) -> Option<Seq<char>> {
    version_from_trimmed(trim(tag), lowercase_of(trim(tag)))
}

// ---------------------------------------------------------------------------
// Lemmas

/// A longer digit string is worth at least as much as its prefix.
proof fn lemma_decimal_value_prefix(d: Seq<char>, k: int)
    requires
        0 <= k <= d.len(),
        all_digits(d),
    ensures
        decimal_value(d.take(k)) <= decimal_value(d),
        0 <= decimal_value(d.take(k)),
    decreases d.len() - k,
{
    if k < d.len() {
        let e = d.take(k + 1);
        assert(e.drop_last() =~= d.take(k));
        assert(is_ascii_digit(d[k]));
        lemma_decimal_value_nonneg(d.take(k));
        lemma_decimal_value_prefix(d, k + 1);
    } else {
        assert(d.take(k) =~= d);
        lemma_decimal_value_nonneg(d);
    }
}

/// Digit strings have nonnegative values.
proof fn lemma_decimal_value_nonneg(d: Seq<char>)
    requires
        all_digits(d),
    ensures
        0 <= decimal_value(d),
    decreases d.len(),
{
    if d.len() > 0 {
        assert(is_ascii_digit(d[d.len() - 1]));
        lemma_decimal_value_nonneg(d.drop_last());
    }
}

// ---------------------------------------------------------------------------
// Laws of the version order

/// No version is newer than itself.
pub proof fn law_version_not_newer_than_itself(v: Seq<char>)
    ensures
        !version_newer(v, v),
{
    lemma_seq_lt_irreflexive(version_numbers(v));
}

/// Of two versions, at most one is newer than the other.
pub proof fn law_version_newer_asymmetric(a: Seq<char>, b: Seq<char>)
    ensures
        version_newer(a, b) ==> !version_newer(b, a),
{
    lemma_seq_lt_asymmetric(version_numbers(a), version_numbers(b));
}

/// Being newer is transitive.
pub proof fn law_version_newer_transitive(a: Seq<char>, b: Seq<char>, c: Seq<char>)
    ensures
        version_newer(a, b) && version_newer(b, c) ==> version_newer(a, c),
{
    lemma_seq_lt_transitive(version_numbers(a), version_numbers(b), version_numbers(c));
}

/// Two versions whose numbers differ are ordered one way or the other;
/// versions with the same numbers (such as `1.0` and `1.00`) are neither.
pub proof fn law_versions_comparable(a: Seq<char>, b: Seq<char>)
    ensures
        version_numbers(a) != version_numbers(b) <==> (version_newer(a, b) || version_newer(b, a)),
{
    lemma_seq_lt_total(version_numbers(a), version_numbers(b));
    lemma_seq_lt_irreflexive(version_numbers(a));
}

// ---------------------------------------------------------------------------
// Executable code

/// `parse_u32` of `v[from..to]`.
pub fn parse_u32_range(v: &Vec<char>, from: usize, to: usize) -> (r: Option<u32>)
    requires
        from <= to <= v.len(),
    ensures
        r == parse_u32(v@.subrange(from as int, to as int)),
{
    let ghost s = v@.subrange(from as int, to as int);
    let mut start = from;
    if from < to && v[from] == '+' {
        start = from + 1;
    }
    let ghost d = v@.subrange(start as int, to as int);
    assert(d =~= unsigned_digits(s));
    if start == to {
        return None;
    }
    let mut value: u32 = 0;
    let mut i = start;
    while i < to
        invariant
            from <= start <= i <= to <= v.len(),
            s == v@.subrange(from as int, to as int),
            d == v@.subrange(start as int, to as int),
            d == unsigned_digits(s),
            all_digits(d.take(i - start)),
            value as int == decimal_value(d.take(i - start)),
        decreases to - i,
    {
        let c = v[i];
        let k: Ghost<int> = Ghost(i - start);
        assert(d[k@] == c);
        if !char_is_ascii_digit(c) {
            assert(!all_digits(d));
            return None;
        }
        let dig: u32 = c as u32 - '0' as u32;
        assert(d.take(k@ + 1).drop_last() =~= d.take(k@));
        assert(all_digits(d.take(k@ + 1))) by {
            assert forall|j: int| 0 <= j < d.take(k@ + 1).len() implies is_ascii_digit(
                #[trigger] d.take(k@ + 1)[j],
            ) by {
                if j < k@ {
                    assert(d.take(k@ + 1)[j] == d.take(k@)[j]);
                }
            }
        }
        if value > 429496729 || (value == 429496729 && dig > 5) {
            proof {
                if all_digits(d) {
                    lemma_decimal_value_prefix(d, k@ + 1);
                    assert(decimal_value(d.take(k@ + 1)) == value * 10 + digit_value(c));
                }
            }
            return None;
        }
        value = value * 10 + dig;
        i = i + 1;
    }
    assert(d.take(to - start) =~= d);
    Some(value)
}

/// The numbers of the dotted version `v`: each piece between dots read as a
/// `u32`, 0 where that fails.
pub fn version_numbers_of(v: &str) -> (r: Vec<u32>)
    ensures
        r@ == version_numbers(v@),
{
    let s = chars_of(v);
    let mut out: Vec<u32> = Vec::new();
    let mut start: usize = 0;
    let mut i: usize = 0;
    assert(split_char(s@.take(0), '.') =~= seq![Seq::<char>::empty()]);
    while i < s.len()
        invariant
            s@ == v@,
            start <= i <= s.len(),
            split_char(s@.take(i as int), '.').len() >= 1,
            out@ == split_char(s@.take(i as int), '.').drop_last().map_values(|p: Seq<char>| version_part(p)),
            split_char(s@.take(i as int), '.').last() == s@.subrange(start as int, i as int),
        decreases s.len() - i,
    {
        proof {
            lemma_split_step(s@, i as int, '.');
        }
        let ghost pre = split_char(s@.take(i as int), '.');
        if s[i] == '.' {
            let n = parse_u32_range(&s, start, i);
            let part = match n {
                Some(x) => x,
                None => 0,
            };
            out.push(part);
            start = i + 1;
            proof {
                let post = split_char(s@.take(i + 1), '.');
                assert(post.drop_last() =~= pre);
                assert(part == version_part(pre.last()));
                assert(pre =~= pre.drop_last().push(pre.last()));
                assert(pre.map_values(|p: Seq<char>| version_part(p)) =~= pre.drop_last().map_values(|p: Seq<char>| version_part(p)).push(version_part(pre.last())));
                assert(out@ =~= pre.map_values(|p: Seq<char>| version_part(p)));
                assert(out@ =~= post.drop_last().map_values(|p: Seq<char>| version_part(p)));
            }
        } else {
            proof {
                let post = split_char(s@.take(i + 1), '.');
                assert(post.drop_last() =~= pre.drop_last());
                assert(post.last() =~= s@.subrange(start as int, i + 1));
            }
        }
        i = i + 1;
    }
    let n = parse_u32_range(&s, start, i);
    let part = match n {
        Some(x) => x,
        None => 0,
    };
    out.push(part);
    proof {
        let all = split_char(s@.take(i as int), '.');
        assert(s@.take(i as int) =~= s@);
        assert(part == version_part(all.last()));
        assert(all =~= all.drop_last().push(all.last()));
        assert(all.map_values(|p: Seq<char>| version_part(p)) =~= all.drop_last().map_values(|p: Seq<char>| version_part(p)).push(version_part(all.last())));
        assert(out@ =~= all.map_values(|p: Seq<char>| version_part(p)));
    }
    out
}

/// Whether the version `v_online` is newer than `v_local`: both are read as
/// dotted numbers (a piece that is no number counts as 0) and compared
/// lexicographically.
pub fn compare_versions(v_local: &str, v_online: &str) -> (r: bool)
    ensures
        r == version_newer(v_local@, v_online@),
{
    let local = version_numbers_of(v_local);
    let online = version_numbers_of(v_online);
    numbers_less(&local, &online)
}

/// The version that the trimmed tag `trimmed` names, given `lowered`, its
/// lowercase form.
pub fn version_from_trimmed_tag(trimmed: &str, lowered: &str) -> (r: Option<String>)
    ensures
        opt_view(r) == version_from_trimmed(trimmed@, lowered@),
{
    let t = chars_of(trimmed);
    proof {
        reveal_strlit("version_");
    }
    if str_starts_with(lowered, "version_") {
        assert("version_"@ =~= version_tag_prefix());
        match find_char_in(&t, '_') {
            Some(i) => Some(string_from_chars(&t, i + 1, t.len())),
            None => None,
        }
    } else {
        assert("version_"@ =~= version_tag_prefix());
        if t.len() > 0 && t[0] == 'v' {
            let k = leading_run(&t, 'v');
            Some(string_from_chars(&t, k, t.len()))
        } else if t.len() > 0 && char_is_ascii_digit(t[0]) {
            Some(string_from_chars(&t, 0, t.len()))
        } else {
            None
        }
    }
}

/// The version that a release tag names: `version_1.2` and `v1.2` give
/// `1.2`, a tag that starts with a digit is its own version, and any other
/// tag names none. Surrounding whitespace is ignored.
pub fn parse_version_from_tag(tag: &str) -> (r: Option<String>)
    ensures
        opt_view(r) == version_from_tag(tag@),
{
    let trimmed = trim_string(tag);
    let lowered = to_lowercase(trimmed.as_str());
    version_from_trimmed_tag(trimmed.as_str(), lowered.as_str())
}

} // verus!
