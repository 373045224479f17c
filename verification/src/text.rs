//! Text primitives the roster and the inspection reports are built from:
//! the order of sortable names, substring search, lowercasing and the family
//! name of a "last, first" display name.

use vstd::prelude::*;
use vstd::std_specs::iter::IteratorSpec;

verus! {

broadcast use vstd::string::group_string_axioms;

/// `a` and `b` agree on their first `k` characters and `a` is smaller at
/// position `k`, characters being compared by scalar value.
pub open spec fn diverges_below(a: Seq<char>, b: Seq<char>, k: int) -> bool {
    &&& 0 <= k < a.len()
    &&& k < b.len()
    &&& a.take(k) == b.take(k)
    &&& a[k] < b[k]
}

/// The order names are sorted in: `a` is a prefix of `b`, or is smaller at
/// the first position where the two differ. This is the order of `str`.
pub open spec fn lex_le(a: Seq<char>, b: Seq<char>) -> bool {
    a.is_prefix_of(b) || exists|k: int| diverges_below(a, b, k)
}

/// Decides `lex_le` for two sequences known to agree on their first `i`
/// characters, in each of the three ways a comparison can end at `i`.
proof fn lemma_lex_le_after_common_prefix(a: Seq<char>, b: Seq<char>, i: int)
    requires
        0 <= i <= a.len(),
        i <= b.len(),
        a.take(i) == b.take(i),
    ensures
        i == a.len() ==> lex_le(a, b),
        i == b.len() && i < a.len() ==> !lex_le(a, b),
        i < a.len() && i < b.len() && a[i] != b[i] ==> (lex_le(a, b) <==> a[i] < b[i]),
{
    assert forall|k: int| 0 <= k < i implies a[k] == b[k] by {
        assert(a.take(i)[k] == a[k]);
        assert(b.take(i)[k] == b[k]);
    }
    if i == a.len() {
        assert(a.take(i) == a);
        assert(a.is_prefix_of(b));
    } else if i == b.len() {
        assert forall|k: int| !diverges_below(a, b, k) by {}
    } else if a[i] != b[i] {
        if a[i] < b[i] {
            assert(diverges_below(a, b, i));
        } else {
            if a.is_prefix_of(b) {
                assert(b.subrange(0, a.len() as int)[i] == a[i]);
            }
            assert forall|k: int| !diverges_below(a, b, k) by {
                if diverges_below(a, b, k) && k > i {
                    assert(a.take(k)[i] == a[i]);
                    assert(b.take(k)[i] == b[i]);
                }
            }
        }
    }
}

/// Every name is at most itself.
pub proof fn lemma_lex_le_reflexive(a: Seq<char>)
    ensures
        lex_le(a, a),
{
    assert(a.subrange(0, a.len() as int) =~= a);
}

proof fn lemma_lex_le_total_from(a: Seq<char>, b: Seq<char>, i: int)
    requires
        0 <= i <= a.len(),
        i <= b.len(),
        a.take(i) == b.take(i),
    ensures
        lex_le(a, b) || lex_le(b, a),
    decreases a.len() - i,
{
    lemma_lex_le_after_common_prefix(a, b, i);
    lemma_lex_le_after_common_prefix(b, a, i);
    if i < a.len() && i < b.len() && a[i] == b[i] {
        assert(a.take(i + 1) =~= a.take(i).push(a[i]));
        assert(b.take(i + 1) =~= b.take(i).push(b[i]));
        lemma_lex_le_total_from(a, b, i + 1);
    }
}

/// Of two names, one is at most the other.
pub proof fn lemma_lex_le_total(a: Seq<char>, b: Seq<char>)
    ensures
        lex_le(a, b) || lex_le(b, a),
{
    assert(a.take(0) =~= b.take(0));
    lemma_lex_le_total_from(a, b, 0);
}

proof fn lemma_take_of_take(s: Seq<char>, t: Seq<char>, k: int, m: int)
    requires
        0 <= m <= k <= s.len(),
        k <= t.len(),
        s.take(k) == t.take(k),
    ensures
        s.take(m) == t.take(m),
{
    assert(s.take(m) =~= s.take(k).take(m));
    assert(t.take(m) =~= t.take(k).take(m));
}

/// The order of names is transitive.
pub proof fn lemma_lex_le_transitive(a: Seq<char>, b: Seq<char>, c: Seq<char>)
    requires
        lex_le(a, b),
        lex_le(b, c),
    ensures
        lex_le(a, c),
{
    if a.is_prefix_of(b) {
        assert(a.take(a.len() as int) =~= a);
        assert(a == b.take(a.len() as int));
        if b.is_prefix_of(c) {
            assert(b == c.take(b.len() as int));
            assert(a =~= c.subrange(0, a.len() as int));
        } else {
            let k = choose|k: int| diverges_below(b, c, k);
            if k < a.len() {
                lemma_take_of_take(a, b, a.len() as int, k);
                assert(a[k] == b.take(a.len() as int)[k]);
                assert(diverges_below(a, c, k));
            } else {
                lemma_take_of_take(b, c, k, a.len() as int);
                assert(a =~= c.subrange(0, a.len() as int));
            }
        }
    } else {
        let k = choose|k: int| diverges_below(a, b, k);
        if b.is_prefix_of(c) {
            assert(b.take(b.len() as int) =~= b);
            assert(b == c.take(b.len() as int));
            lemma_take_of_take(b, c, b.len() as int, k);
            assert(b[k] == c.take(b.len() as int)[k]);
            assert(diverges_below(a, c, k));
        } else {
            let m = choose|m: int| diverges_below(b, c, m);
            if k < m {
                lemma_take_of_take(b, c, m, k);
                assert(b.take(m)[k] == b[k]);
                assert(c.take(m)[k] == c[k]);
                assert(diverges_below(a, c, k));
            } else if k == m {
                assert(diverges_below(a, c, k));
            } else {
                lemma_take_of_take(a, b, k, m);
                assert(a.take(k)[m] == a[m]);
                assert(b.take(k)[m] == b[m]);
                assert(diverges_below(a, c, m));
            }
        }
    }
}

/// Two names that are each at most the other are the same name.
pub proof fn lemma_lex_le_antisymmetric(a: Seq<char>, b: Seq<char>)
    requires
        lex_le(a, b),
        lex_le(b, a),
    ensures
        a == b,
{
    if a.is_prefix_of(b) {
        if b.is_prefix_of(a) {
            assert(b.subrange(0, a.len() as int) =~= b);
        } else {
            let k = choose|k: int| diverges_below(b, a, k);
            assert(b.subrange(0, a.len() as int)[k] == b[k]);
        }
    } else {
        let k = choose|k: int| diverges_below(a, b, k);
        if b.is_prefix_of(a) {
            assert(a.subrange(0, b.len() as int)[k] == a[k]);
        } else {
            let m = choose|m: int| diverges_below(b, a, m);
            if k < m {
                assert(b.take(m)[k] == b[k]);
                assert(a.take(m)[k] == a[k]);
            } else if k > m {
                assert(a.take(k)[m] == a[m]);
                assert(b.take(k)[m] == b[m]);
            }
        }
    }
}

/// Compares two names in the order the roster is sorted in.
pub fn name_le(a: &str, b: &str) -> (r: bool)
    ensures
        r == lex_le(a@, b@),
{
    let mut rest = b.chars();
    for left in it: a.chars()
        invariant
            it.seq() == a@,
            it.index() <= b@.len(),
            rest.remaining() == b@.skip(it.index() as int),
            a@.take(it.index() as int) == b@.take(it.index() as int),
    {
        let ghost i = it.index() as int;
        proof {
            lemma_lex_le_after_common_prefix(a@, b@, i);
        }
        match rest.next() {
            None => {
                return false;
            },
            Some(right) => {
                if left != right {
                    return left < right;
                }
                assert(a@.take(i + 1) =~= a@.take(i).push(a@[i]));
                assert(b@.take(i + 1) =~= b@.take(i).push(b@[i]));
            },
        }
    }
    proof {
        lemma_lex_le_after_common_prefix(a@, b@, a@.len() as int);
    }
    true
}

/// Collects the characters of `s`.
pub fn chars_of(s: &str) -> (chars: Vec<char>)
    ensures
        chars@ == s@,
{
    let mut chars: Vec<char> = Vec::new();
    for c in it: s.chars()
        invariant
            it.seq() == s@,
            chars@ == it.seq().take(it.index() as int),
    {
        chars.push(c);
    }
    chars
}

/// `needle` stands in `hay` at position `at`.
pub open spec fn occurs_at(needle: Seq<char>, hay: Seq<char>, at: int) -> bool {
    &&& 0 <= at
    &&& at + needle.len() <= hay.len()
    &&& hay.subrange(at, at + needle.len()) == needle
}

/// `needle` stands somewhere in `hay`. The empty needle stands in every text.
pub open spec fn is_substring(needle: Seq<char>, hay: Seq<char>) -> bool {
    exists|at: int| occurs_at(needle, hay, at)
}

fn matches_at(hay: &Vec<char>, needle: &Vec<char>, at: usize) -> (r: bool)
    requires
        at + needle.len() <= hay.len(),
    ensures
        r == occurs_at(needle@, hay@, at as int),
{
    let mut j: usize = 0;
    while j < needle.len()
        invariant
            j <= needle@.len(),
            at + needle@.len() <= hay.len(),
            forall|k: int| 0 <= k < j ==> hay@[at + k] == needle@[k],
        decreases needle@.len() - j,
    {
        if hay[at + j] != needle[j] {
            proof {
                let window = hay@.subrange(at as int, at + needle@.len());
                assert(window[j as int] == hay@[at + j]);
            }
            return false;
        }
        j = j + 1;
    }
    assert(hay@.subrange(at as int, at + needle@.len()) =~= needle@);
    true
}

/// Tells whether `needle` stands somewhere in `hay`.
pub fn contains(hay: &str, needle: &str) -> (r: bool)
    ensures
        r == is_substring(needle@, hay@),
{
    let hay_chars = chars_of(hay);
    let needle_chars = chars_of(needle);
    if needle_chars.len() > hay_chars.len() {
        return false;
    }
    let last: usize = hay_chars.len() - needle_chars.len();
    let mut at: usize = 0;
    loop
        invariant
            at <= last,
            last == hay_chars@.len() - needle_chars@.len(),
            hay_chars@ == hay@,
            needle_chars@ == needle@,
            forall|k: int| 0 <= k < at ==> !occurs_at(needle@, hay@, k),
        decreases last - at,
    {
        if matches_at(&hay_chars, &needle_chars, at) {
            return true;
        }
        if at == last {
            return false;
        }
        at = at + 1;
    }
}

/// The lowercase form of a text, as `str::to_lowercase` computes it.
pub uninterp spec fn lowercase(text: Seq<char>) -> Seq<char>;

/// `str::to_lowercase`: the result is a function of the characters of `text`
/// alone, named `lowercase`; nothing else is claimed of it.
#[verifier::external_body]
pub(crate) fn to_lowercase(text: &str) -> (lowered: String)
    ensures
        lowered@ == lowercase(text@),
{
    text.to_lowercase()
}

/// The separator between family name and given names in a sortable name.
pub const NAME_SEPARATOR: char = ',';

/// The part of `name` before its first separator; all of `name` if it has none.
pub open spec fn before_separator(name: Seq<char>) -> Seq<char> {
    match name.index_of_first(NAME_SEPARATOR) {
        Some(at) => name.take(at),
        None => name,
    }
}

/// The family name a submitter's files are searched for: the lowercase form
/// of the sortable name, up to its first separator.
pub open spec fn family_name_of(sortable_name: Seq<char>) -> Seq<char> {
    before_separator(lowercase(sortable_name))
}

/// `before_separator` is the one prefix of `name` that holds no separator and
/// ends at a separator or at the end of `name`.
pub proof fn lemma_before_separator(name: Seq<char>, at: int)
    requires
        0 <= at <= name.len(),
        forall|k: int| 0 <= k < at ==> name[k] != NAME_SEPARATOR,
        at < name.len() ==> name[at] == NAME_SEPARATOR,
    ensures
        before_separator(name) == name.take(at),
{
    name.index_of_first_ensures(NAME_SEPARATOR);
    match name.index_of_first(NAME_SEPARATOR) {
        Some(first) => {
            assert(at < name.len());
        },
        None => {
            if at < name.len() {
                assert(name.contains(name[at]));
            }
            assert(name.take(at) =~= name);
        },
    }
}

/// Cuts a name at its first separator.
pub fn family_prefix(name: &str) -> (family: String)
    ensures
        family@ == before_separator(name@),
{
    let total = name.unicode_len();
    let mut at: usize = 0;
    for c in it: name.chars()
        invariant
            it.seq() == name@,
            at == it.index(),
            total == name@.len(),
            forall|k: int| 0 <= k < at ==> name@[k] != NAME_SEPARATOR,
    {
        if c == NAME_SEPARATOR {
            proof {
                lemma_before_separator(name@, at as int);
            }
            return name.substring_char(0, at).to_owned();
        }
        at = at + 1;
    }
    proof {
        lemma_before_separator(name@, at as int);
    }
    name.substring_char(0, at).to_owned()
}

/// Computes the family name of a submitter from the sortable name.
pub fn family_name(sortable_name: &str) -> (family: String)
    ensures
        family@ == family_name_of(sortable_name@),
{
    let lowered = to_lowercase(sortable_name);
    family_prefix(lowered.as_str())
}

} // verus!
