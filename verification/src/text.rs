//! Character-level utilities shared by the classifier, the tag generators and
//! the record codec: ASCII case mapping, equality and lexicographic order on
//! character vectors, and the two conversions between `String` and `Vec<char>`.

use vstd::prelude::*;

verus! {

/// ASCII lower-casing of a single character; everything outside `'A'..='Z'`
/// is left alone.
pub open spec fn lower_char(c: char) -> char {
    if 'A' <= c && c <= 'Z' {
        ((c as u32) + 32) as char
    } else {
        c
    }
}

/// ASCII upper-casing of a single character; everything outside `'a'..='z'`
/// is left alone.
pub open spec fn upper_char(c: char) -> char {
    if 'a' <= c && c <= 'z' {
        ((c as u32) - 32) as char
    } else {
        c
    }
}

pub open spec fn seq_lower(s: Seq<char>) -> Seq<char> {
    s.map_values(|c: char| lower_char(c))
}

pub open spec fn seq_upper(s: Seq<char>) -> Seq<char> {
    s.map_values(|c: char| upper_char(c))
}

pub fn to_lower_char(c: char) -> (r: char)
    ensures
        r == lower_char(c),
{
    match c {
        'A' => 'a',
        'B' => 'b',
        'C' => 'c',
        'D' => 'd',
        'E' => 'e',
        'F' => 'f',
        'G' => 'g',
        'H' => 'h',
        'I' => 'i',
        'J' => 'j',
        'K' => 'k',
        'L' => 'l',
        'M' => 'm',
        'N' => 'n',
        'O' => 'o',
        'P' => 'p',
        'Q' => 'q',
        'R' => 'r',
        'S' => 's',
        'T' => 't',
        'U' => 'u',
        'V' => 'v',
        'W' => 'w',
        'X' => 'x',
        'Y' => 'y',
        'Z' => 'z',
        _ => c,
    }
}

pub fn to_upper_char(c: char) -> (r: char)
    ensures
        r == upper_char(c),
{
    match c {
        'a' => 'A',
        'b' => 'B',
        'c' => 'C',
        'd' => 'D',
        'e' => 'E',
        'f' => 'F',
        'g' => 'G',
        'h' => 'H',
        'i' => 'I',
        'j' => 'J',
        'k' => 'K',
        'l' => 'L',
        'm' => 'M',
        'n' => 'N',
        'o' => 'O',
        'p' => 'P',
        'q' => 'Q',
        'r' => 'R',
        's' => 'S',
        't' => 'T',
        'u' => 'U',
        'v' => 'V',
        'w' => 'W',
        'x' => 'X',
        'y' => 'Y',
        'z' => 'Z',
        _ => c,
    }
}

pub fn to_lower(v: &Vec<char>) -> (r: Vec<char>)
    ensures
        r@ == seq_lower(v@),
{
    let mut r: Vec<char> = Vec::new();
    let mut i: usize = 0;
    while i < v.len()
        invariant
            i <= v.len(),
            r@ =~= seq_lower(v@.take(i as int)),
        decreases v.len() - i,
    {
        r.push(to_lower_char(v[i]));
        i += 1;
    }
    assert(v@.take(v.len() as int) =~= v@);
    r
}

pub fn to_upper(v: &Vec<char>) -> (r: Vec<char>)
    ensures
        r@ == seq_upper(v@),
{
    let mut r: Vec<char> = Vec::new();
    let mut i: usize = 0;
    while i < v.len()
        invariant
            i <= v.len(),
            r@ =~= seq_upper(v@.take(i as int)),
        decreases v.len() - i,
    {
        r.push(to_upper_char(v[i]));
        i += 1;
    }
    assert(v@.take(v.len() as int) =~= v@);
    r
}

/// Equality of two character vectors, decided character by character.
pub fn chars_eq(a: &Vec<char>, b: &Vec<char>) -> (r: bool)
    ensures
        r == (a@ == b@),
{
    if a.len() != b.len() {
        return false;
    }
    let mut i: usize = 0;
    while i < a.len()
        invariant
            i <= a.len(),
            a.len() == b.len(),
            forall|j: int| 0 <= j < i ==> a@[j] == b@[j],
        decreases a.len() - i,
    {
        if a[i] != b[i] {
            return false;
        }
        i += 1;
    }
    assert(a@ =~= b@);
    true
}

/// The views of a sequence of strings.
pub open spec fn str_views(ss: Seq<String>) -> Seq<Seq<char>> {
    ss.map_values(|s: String| s@)
}

/// The views of a sequence of character vectors.
pub open spec fn char_views(vs: Seq<Vec<char>>) -> Seq<Seq<char>> {
    vs.map_values(|v: Vec<char>| v@)
}

/// Index of the last `'.'` of `name` at a position in `[1, i]`, if any.
/// Position `0` is excluded, so a leading dot alone never starts an extension.
pub open spec fn last_dot_at_or_before(name: Seq<char>, i: int) -> Option<int>
    decreases i,
{
    if i <= 0 || i >= name.len() {
        None
    } else if name[i] == '.' {
        Some(i)
    } else {
        last_dot_at_or_before(name, i - 1)
    }
}

/// The extension of a file name: what follows the last `'.'`, provided that
/// dot is not the name's first character; `None` when there is no such dot.
pub open spec fn extension_of(name: Seq<char>) -> Option<Seq<char>> {
    match last_dot_at_or_before(name, name.len() - 1) {
        Some(j) => Some(name.skip(j + 1)),
        None => None,
    }
}

/// The extension of `name`, as `extension_of` describes it.
pub fn extension_of_chars(name: &Vec<char>) -> (r: Option<Vec<char>>)
    ensures
        r is Some <==> extension_of(name@) is Some,
        r matches Some(e) ==> extension_of(name@) == Some(e@),
{
    let mut i: usize = name.len();
    while i > 1
        invariant
            i <= name.len(),
            last_dot_at_or_before(name@, name@.len() - 1) == last_dot_at_or_before(
                name@,
                i - 1,
            ),
        decreases i,
    {
        i -= 1;
        if name[i] == '.' {
            let mut e: Vec<char> = Vec::new();
            let mut j: usize = i + 1;
            while j < name.len()
                invariant
                    i + 1 <= j <= name.len(),
                    e@ =~= name@.subrange(i + 1, j as int),
                decreases name.len() - j,
            {
                e.push(name[j]);
                j += 1;
            }
            assert(e@ =~= name@.skip(i + 1));
            return Some(e);
        }
    }
    None
}

/// The characters of each string, in order.
pub fn to_char_lists(ss: &Vec<String>) -> (r: Vec<Vec<char>>)
    ensures
        char_views(r@) == str_views(ss@),
{
    let mut r: Vec<Vec<char>> = Vec::new();
    let mut i: usize = 0;
    while i < ss.len()
        invariant
            i <= ss.len(),
            r@.len() == i,
            forall|k: int| 0 <= k < i ==> r@[k]@ == ss@[k]@,
        decreases ss.len() - i,
    {
        r.push(chars_of_str(ss[i].as_str()));
        i += 1;
    }
    assert(char_views(r@) =~= str_views(ss@));
    r
}

/// Each character vector turned back into a string.
pub fn to_strings(vs: &Vec<Vec<char>>) -> (r: Vec<String>)
    ensures
        str_views(r@) == char_views(vs@),
{
    let mut r: Vec<String> = Vec::new();
    let mut i: usize = 0;
    while i < vs.len()
        invariant
            i <= vs.len(),
            r@.len() == i,
            forall|k: int| 0 <= k < i ==> r@[k]@ == vs@[k]@,
        decreases vs.len() - i,
    {
        r.push(string_of_chars(&vs[i]));
        i += 1;
    }
    assert(str_views(r@) =~= char_views(vs@));
    r
}

/// `n` occurs contiguously somewhere in `h` (the empty sequence occurs in
/// every sequence).
pub open spec fn contains_seq(h: Seq<char>, n: Seq<char>) -> bool {
    exists|k: int| 0 <= k && k + n.len() <= h.len() && #[trigger] h.subrange(k, k + n.len()) == n
}

/// Substring search, deciding `contains_seq`.
pub fn contains_chars(h: &Vec<char>, n: &Vec<char>) -> (r: bool)
    ensures
        r == contains_seq(h@, n@),
{
    if n.len() > h.len() {
        return false;
    }
    if n.len() == 0 {
        proof {
            assert(h@.subrange(0, 0 + n@.len() as int) =~= n@);
        }
        return true;
    }
    let mut k: usize = 0;
    while k <= h.len() - n.len()
        invariant
            1 <= n.len() <= h.len(),
            k <= h.len(),
            forall|k2: int| 0 <= k2 < k ==> #[trigger] h@.subrange(k2, k2 + n@.len()) != n@,
        decreases h.len() - k,
    {
        let mut window: Vec<char> = Vec::new();
        let mut j: usize = 0;
        while j < n.len()
            invariant
                k + n.len() <= h.len(),
                j <= n.len(),
                window@ =~= h@.subrange(k as int, k + j),
            decreases n.len() - j,
        {
            window.push(h[k + j]);
            j += 1;
        }
        if chars_eq(&window, n) {
            proof {
                assert(h@.subrange(k as int, k + n@.len()) == n@);
            }
            return true;
        }
        k += 1;
    }
    proof {
        assert forall|k2: int| 0 <= k2 && k2 + n@.len() <= h@.len() implies #[trigger] h@.subrange(
            k2,
            k2 + n@.len(),
        ) != n@ by {
            assert(k2 < k);
        }
    }
    false
}

/// Strict lexicographic order on character sequences, by code point; a proper
/// prefix comes before every sequence it begins.
pub open spec fn seq_lt(a: Seq<char>, b: Seq<char>) -> bool
    decreases a.len(),
{
    if b.len() == 0 {
        false
    } else if a.len() == 0 {
        true
    } else if a[0] != b[0] {
        a[0] < b[0]
    } else {
        seq_lt(a.skip(1), b.skip(1))
    }
}

/// `seq_lt` and equality are mutually exclusive and cover every pair.
pub proof fn lemma_seq_lt_connected(a: Seq<char>, b: Seq<char>)
    ensures
        seq_lt(a, b) || seq_lt(b, a) || a == b,
        !(seq_lt(a, b) && seq_lt(b, a)),
        a == b ==> !seq_lt(a, b),
    decreases a.len(),
{
    if a.len() == 0 && b.len() == 0 {
        assert(a =~= b);
    } else if a.len() > 0 && b.len() > 0 && a[0] != b[0] {
        assert(a[0] < b[0] || b[0] < a[0]);
    } else if a.len() > 0 && b.len() > 0 && a[0] == b[0] {
        lemma_seq_lt_connected(a.skip(1), b.skip(1));
        if !seq_lt(a, b) && !seq_lt(b, a) {
            assert(a.skip(1) == b.skip(1));
            assert forall|k: int| 0 <= k < a.len() implies a[k] == b[k] by {
                if k >= 1 {
                    assert(a.skip(1)[k - 1] == b.skip(1)[k - 1]);
                }
            }
            assert(a =~= b);
        }
        if a == b {
            assert(a.skip(1) == b.skip(1));
        }
    }
}

/// Transitivity of `seq_lt`.
pub proof fn lemma_seq_lt_trans(a: Seq<char>, b: Seq<char>, c: Seq<char>)
    requires
        seq_lt(a, b),
        seq_lt(b, c),
    ensures
        seq_lt(a, c),
    decreases a.len(),
{
    if a.len() > 0 && b.len() > 0 && c.len() > 0 {
        if a[0] == b[0] && b[0] == c[0] {
            lemma_seq_lt_trans(a.skip(1), b.skip(1), c.skip(1));
        }
    }
}

/// Whenever `a` and `b` agree on their first `i` characters, `seq_lt` is
/// decided by the rest.
pub proof fn lemma_seq_lt_common_prefix(a: Seq<char>, b: Seq<char>, i: int)
    requires
        0 <= i <= a.len(),
        i <= b.len(),
        forall|j: int| 0 <= j < i ==> a[j] == b[j],
    ensures
        seq_lt(a, b) == seq_lt(a.skip(i), b.skip(i)),
    decreases i,
{
    if i == 0 {
        assert(a.skip(0) =~= a);
        assert(b.skip(0) =~= b);
    } else {
        assert(seq_lt(a, b) == seq_lt(a.skip(1), b.skip(1)));
        assert(forall|j: int| 0 <= j < i - 1 ==> a.skip(1)[j] == b.skip(1)[j]);
        lemma_seq_lt_common_prefix(a.skip(1), b.skip(1), i - 1);
        assert(a.skip(1).skip(i - 1) =~= a.skip(i));
        assert(b.skip(1).skip(i - 1) =~= b.skip(i));
    }
}

/// Three-way comparison deciding `seq_lt` and equality: negative for less,
/// zero for equal, positive for greater.
pub fn chars_cmp(a: &Vec<char>, b: &Vec<char>) -> (o: i32)
    ensures
        (o < 0) == seq_lt(a@, b@),
        (o == 0) == (a@ == b@),
        (o > 0) == seq_lt(b@, a@),
{
    let mut i: usize = 0;
    while i < a.len() && i < b.len()
        invariant
            i <= a.len(),
            i <= b.len(),
            forall|j: int| 0 <= j < i ==> a@[j] == b@[j],
        decreases a.len() - i,
    {
        let x = a[i];
        let y = b[i];
        if x != y {
            proof {
                lemma_seq_lt_common_prefix(a@, b@, i as int);
                lemma_seq_lt_common_prefix(b@, a@, i as int);
                assert(a@.skip(i as int)[0] == a@[i as int]);
                assert(b@.skip(i as int)[0] == b@[i as int]);
                assert(a@[i as int] != b@[i as int]);
                
            }
            if x < y {
                return -1;
            } else {
                return 1;
            }
        }
        i += 1;
    }
    proof {
        lemma_seq_lt_common_prefix(a@, b@, if a@.len() <= b@.len() {
            a@.len() as int
        } else {
            b@.len() as int
        });
        lemma_seq_lt_common_prefix(b@, a@, if a@.len() <= b@.len() {
            a@.len() as int
        } else {
            b@.len() as int
        });
    }
    if a.len() < b.len() {
        -1
    } else if a.len() > b.len() {
        1
    } else {
        proof {
            assert(a@ =~= b@);
            lemma_seq_lt_connected(a@, b@);
        }
        0
    }
}

/// Strictly ascending in `seq_lt`; in particular free of duplicates.
pub open spec fn strict_sorted(s: Seq<Seq<char>>) -> bool {
    forall|i: int, j: int| 0 <= i < j < s.len() ==> seq_lt(s[i], s[j])
}

/// A strictly sorted sequence holds no element twice.
pub proof fn lemma_strict_sorted_no_duplicates(s: Seq<Seq<char>>)
    requires
        strict_sorted(s),
    ensures
        s.no_duplicates(),
{
    assert forall|i: int, j: int|
        0 <= i < s.len() && 0 <= j < s.len() && i != j implies s[i] != s[j] by {
        if i < j {
            lemma_seq_lt_connected(s[i], s[j]);
        } else {
            lemma_seq_lt_connected(s[j], s[i]);
        }
    }
}

/// Pushing an element extends the element set by it.
pub proof fn lemma_to_set_push<A>(s: Seq<A>, x: A)
    ensures
        (s.push(x)).to_set() =~= s.to_set().insert(x),
{
    assert forall|y: A| (s.push(x)).to_set().contains(y) implies s.to_set().insert(x).contains(
        y,
    ) by {
        let i = choose|i: int| 0 <= i < s.push(x).len() && s.push(x)[i] == y;
        if i < s.len() {
            assert(s[i] == y);
        }
    }
    assert forall|y: A| s.to_set().insert(x).contains(y) implies (s.push(x)).to_set().contains(
        y,
    ) by {
        if s.to_set().contains(y) {
            let i = choose|i: int| 0 <= i < s.len() && s[i] == y;
            assert(s.push(x)[i] == y);
        } else {
            assert(s.push(x)[s.len() as int] == x);
        }
    }
}

/// Inserting an element anywhere extends the element set by it.
pub proof fn lemma_to_set_insert<A>(s: Seq<A>, j: int, x: A)
    requires
        0 <= j <= s.len(),
    ensures
        (s.insert(j, x)).to_set() =~= s.to_set().insert(x),
{
    let t = s.insert(j, x);
    s.insert_ensures(j, x);
    assert forall|y: A| t.to_set().contains(y) implies s.to_set().insert(x).contains(y) by {
        let i = choose|i: int| 0 <= i < t.len() && t[i] == y;
        if i < j {
            assert(s[i] == y);
        } else if i == j {
        } else {
            assert(s[i - 1] == y);
        }
    }
    assert forall|y: A| s.to_set().insert(x).contains(y) implies t.to_set().contains(y) by {
        if s.to_set().contains(y) {
            let i = choose|i: int| 0 <= i < s.len() && s[i] == y;
            if i < j {
                assert(t[i] == y);
            } else {
                assert(t[i + 1] == y);
            }
        } else {
            assert(t[j] == x);
        }
    }
}

/// Orders the character vectors ascending by `seq_lt` and drops duplicates:
/// the result is strictly sorted and holds exactly the same set of values.
pub fn sort_dedup(v: Vec<Vec<char>>) -> (r: Vec<Vec<char>>)
    ensures
        strict_sorted(char_views(r@)),
        char_views(r@).to_set() == char_views(v@).to_set(),
{
    let ghost all = char_views(v@).to_set();
    let mut v = v;
    let mut out: Vec<Vec<char>> = Vec::new();
    while v.len() > 0
        invariant
            strict_sorted(char_views(out@)),
            char_views(out@).to_set().union(char_views(v@).to_set()) =~= all,
        decreases v.len(),
    {
        let ghost v_before = v@;
        let item = match v.pop() {
            Some(it) => it,
            None => {
                return out;
            },
        };
        proof {
            assert(v_before =~= v@.push(item));
            assert(char_views(v_before) =~= char_views(v@).push(item@));
            lemma_to_set_push(char_views(v@), item@);
        }
        let mut j: usize = 0;
        let mut found_ge = false;
        let mut is_dup = false;
        while j < out.len() && !found_ge
            invariant
                j <= out.len(),
                forall|k: int| 0 <= k < j ==> seq_lt(char_views(out@)[k], item@),
                found_ge ==> j < out.len() && (is_dup <==> char_views(out@)[j as int] == item@)
                    && (!is_dup ==> seq_lt(item@, char_views(out@)[j as int])),
            decreases
                    out.len() - j + (if found_ge {
                        0int
                    } else {
                        1int
                    }),
        {
            let c = chars_cmp(&out[j], &item);
            if c < 0 {
                j += 1;
            } else {
                found_ge = true;
                is_dup = c == 0;
            }
        }
        if found_ge && is_dup {
            proof {
                assert(char_views(out@).to_set().contains(item@));
                assert(char_views(out@).to_set().union(char_views(v@).to_set()) =~= all);
            }
        } else {
            let ghost out_before = out@;
            proof {
                assert forall|k: int| j <= k < out_before.len() implies seq_lt(
                    item@,
                    char_views(out_before)[k],
                ) by {
                    if k > j {
                        lemma_seq_lt_trans(
                            item@,
                            char_views(out_before)[j as int],
                            char_views(out_before)[k],
                        );
                    }
                }
            }
            out.insert(j, item);
            proof {
                assert(char_views(out@) =~= char_views(out_before).insert(j as int, item@)) by {
                    out_before.insert_ensures(j as int, item);
                    char_views(out_before).insert_ensures(j as int, item@);
                }
                char_views(out_before).insert_ensures(j as int, item@);
                lemma_to_set_insert(char_views(out_before), j as int, item@);
                assert(strict_sorted(char_views(out@)));
                assert(char_views(out@).to_set().union(char_views(v@).to_set()) =~= all);
            }
        }
    }
    proof {
        assert(char_views(v@).to_set() =~= Set::<Seq<char>>::empty());
        assert(char_views(out@).to_set() =~= all);
    }
    out
}

/// Relies on `str::chars` and `Iterator::collect`: the characters of the
/// string, in order, gathered into a vector.
#[verifier::external_body]
pub fn chars_of_str(s: &str) -> (v: Vec<char>)
    ensures
        v@ == s@,
{
    s.chars().collect()
}

/// Relies on `String`'s `FromIterator` impl via `Iterator::collect`: the
/// string made of exactly the given characters, in order.
#[verifier::external_body]
pub fn string_of_chars(v: &Vec<char>) -> (s: String)
    ensures
        s@ == v@,
{
    v.iter().collect()
}

} // verus!
