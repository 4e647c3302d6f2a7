//! Text as sequences of characters: white space, trimming, splitting on a
//! separator and joining with one.

use vstd::prelude::*;
use vstd::string::StringExecFns;

verus! {

/// Whether `c` is white space, that is, carries the Unicode property
/// `White_Space`.
pub open spec fn is_whitespace(c: char) -> bool {
    let u = c as u32;
    ||| 0x09 <= u <= 0x0d
    ||| u == 0x20
    ||| u == 0x85
    ||| u == 0xa0
    ||| u == 0x1680
    ||| 0x2000 <= u <= 0x200a
    ||| u == 0x2028
    ||| u == 0x2029
    ||| u == 0x202f
    ||| u == 0x205f
    ||| u == 0x3000
}

/// How many characters of white space `s` starts with.
pub open spec fn leading_whitespace(s: Seq<char>) -> nat
    decreases s.len(),
{
    if s.len() > 0 && is_whitespace(s[0]) {
        1 + leading_whitespace(s.drop_first())
    } else {
        0
    }
}

/// How many characters of white space `s` ends with.
pub open spec fn trailing_whitespace(s: Seq<char>) -> nat
    decreases s.len(),
{
    if s.len() > 0 && is_whitespace(s.last()) {
        1 + trailing_whitespace(s.drop_last())
    } else {
        0
    }
}

/// `s` without the white space at its two ends.
pub open spec fn trim(s: Seq<char>) -> Seq<char> {
    let lead = leading_whitespace(s);
    if lead == s.len() {
        Seq::empty()
    } else {
        s.subrange(lead as int, s.len() - trailing_whitespace(s))
    }
}

/// `s` without the white space at its end.
pub open spec fn trim_end(s: Seq<char>) -> Seq<char> {
    s.take(s.len() - trailing_whitespace(s))
}

/// Whether some character of `s` is white space.
pub open spec fn has_whitespace(s: Seq<char>) -> bool {
    exists|i: int| 0 <= i < s.len() && is_whitespace(#[trigger] s[i])
}

/// The fields of `s` between the occurrences of `sep`. Reading `s` from the
/// left, a separator opens a new, empty field and any other character is added
/// to the field that is open. There is always at least one field.
pub open spec fn split(s: Seq<char>, sep: char) -> Seq<Seq<char>>
    decreases s.len(),
{
    if s.len() == 0 {
        seq![Seq::empty()]
    } else {
        let before = split(s.drop_last(), sep);
        if s.last() == sep {
            before.push(Seq::empty())
        } else {
            before.drop_last().push(before.last().push(s.last()))
        }
    }
}

/// The parts in order, with `sep` between each two neighbours.
pub open spec fn join(parts: Seq<Seq<char>>, sep: char) -> Seq<char>
    decreases parts.len(),
{
    if parts.len() == 0 {
        Seq::empty()
    } else if parts.len() == 1 {
        parts[0]
    } else {
        join(parts.drop_last(), sep).push(sep) + parts.last()
    }
}

/// The character sequences that the strings of `v` stand for.
pub open spec fn views(v: Seq<String>) -> Seq<Seq<char>> {
    Seq::new(v.len(), |i: int| v[i]@)
}

/// If the first `n` characters of `s` are white space and the next one, if
/// there is one, is not, then `s` starts with exactly `n` characters of white
/// space.
pub proof fn lemma_leading_whitespace(s: Seq<char>, n: int)
    requires
        0 <= n <= s.len(),
        forall|k: int| 0 <= k < n ==> is_whitespace(s[k]),
        n < s.len() ==> !is_whitespace(s[n]),
    ensures
        leading_whitespace(s) == n,
    decreases n,
{
    if n > 0 {
        let t = s.drop_first();
        assert forall|k: int| 0 <= k < n - 1 implies is_whitespace(t[k]) by {
            assert(t[k] == s[k + 1]);
        }
        lemma_leading_whitespace(t, n - 1);
    }
}

/// If the last `n` characters of `s` are white space and the one before them,
/// if there is one, is not, then `s` ends with exactly `n` characters of white
/// space.
pub proof fn lemma_trailing_whitespace(s: Seq<char>, n: int)
    requires
        0 <= n <= s.len(),
        forall|k: int| s.len() - n <= k < s.len() ==> is_whitespace(s[k]),
        n < s.len() ==> !is_whitespace(s[s.len() - n - 1]),
    ensures
        trailing_whitespace(s) == n,
    decreases n,
{
    if n > 0 {
        let t = s.drop_last();
        assert forall|k: int| t.len() - (n - 1) <= k < t.len() implies is_whitespace(t[k]) by {
            assert(t[k] == s[k]);
        }
        lemma_trailing_whitespace(t, n - 1);
    }
}

/// A text starts with no more white space than it has characters, and what
/// follows the white space does not start with white space.
pub proof fn lemma_leading_whitespace_ends(s: Seq<char>)
    ensures
        leading_whitespace(s) <= s.len(),
        forall|k: int| 0 <= k < leading_whitespace(s) ==> is_whitespace(s[k]),
        leading_whitespace(s) < s.len() ==> !is_whitespace(s[leading_whitespace(s) as int]),
    decreases s.len(),
{
    if s.len() > 0 && is_whitespace(s[0]) {
        let t = s.drop_first();
        lemma_leading_whitespace_ends(t);
        assert forall|k: int| 0 <= k < leading_whitespace(s) implies is_whitespace(s[k]) by {
            if k > 0 {
                assert(s[k] == t[k - 1]);
            }
        }
        if leading_whitespace(s) < s.len() {
            assert(s[leading_whitespace(s) as int] == t[leading_whitespace(t) as int]);
        }
    }
}

/// A text ends with no more white space than it has characters, and what
/// stands before the white space does not end with white space.
pub proof fn lemma_trailing_whitespace_ends(s: Seq<char>)
    ensures
        trailing_whitespace(s) <= s.len(),
        forall|k: int| s.len() - trailing_whitespace(s) <= k < s.len() ==> is_whitespace(s[k]),
        trailing_whitespace(s) < s.len() ==> !is_whitespace(
            s[s.len() - trailing_whitespace(s) - 1],
        ),
    decreases s.len(),
{
    if s.len() > 0 && is_whitespace(s.last()) {
        let t = s.drop_last();
        lemma_trailing_whitespace_ends(t);
        assert forall|k: int| s.len() - trailing_whitespace(s) <= k < s.len() implies is_whitespace(
            s[k],
        ) by {
            if k < s.len() - 1 {
                assert(s[k] == t[k]);
            }
        }
        if trailing_whitespace(s) < s.len() {
            assert(s[s.len() - trailing_whitespace(s) - 1] == t[t.len() - trailing_whitespace(t)
                - 1]);
        }
    }
}

/// What stands before a text adds nothing to the white space at its end, if
/// it does not end with white space itself.
pub proof fn lemma_trailing_whitespace_after(head: Seq<char>, tail: Seq<char>)
    requires
        head.len() > 0,
        !is_whitespace(head.last()),
    ensures
        trailing_whitespace(head + tail) == trailing_whitespace(tail),
{
    let whole = head + tail;
    let n = trailing_whitespace(tail) as int;
    lemma_trailing_whitespace_ends(tail);
    assert forall|k: int| whole.len() - n <= k < whole.len() implies is_whitespace(whole[k]) by {
        assert(whole[k] == tail[k - head.len()]);
    }
    if n < tail.len() {
        assert(whole[whole.len() - n - 1] == tail[tail.len() - n - 1]);
    } else {
        assert(whole[whole.len() - n - 1] == head.last());
    }
    lemma_trailing_whitespace(whole, n);
}

/// A trimmed text neither starts nor ends with white space, and it is empty
/// exactly if the text is white space throughout. A text that neither starts
/// nor ends with white space is its own trimmed text.
pub proof fn lemma_trim(s: Seq<char>)
    ensures
        leading_whitespace(trim(s)) == 0,
        trailing_whitespace(trim(s)) == 0,
        trim(s).len() == 0 <==> leading_whitespace(s) == s.len(),
        leading_whitespace(s) == 0 && trailing_whitespace(s) == 0 ==> trim(s) == s,
        trim(s).len() > 0 ==> !is_whitespace(trim(s)[0]) && !is_whitespace(trim(s).last()),
{
    lemma_leading_whitespace_ends(s);
    lemma_trailing_whitespace_ends(s);
    let lead = leading_whitespace(s) as int;
    let trail = trailing_whitespace(s) as int;
    if lead < s.len() {
        if s.len() - trail <= lead {
            assert(is_whitespace(s[lead]));
        }
        let t = trim(s);
        assert(t[0] == s[lead]);
        assert(t[t.len() - 1] == s[s.len() - trail - 1]);
        assert(t.last() == s[s.len() - trail - 1]);
    }
    if lead == 0 && trail == 0 {
        assert(s.subrange(0, s.len() as int) =~= s);
        if s.len() == 0 {
            assert(s =~= Seq::empty());
        }
    }
}

/// Splitting never yields an empty list of fields.
pub proof fn lemma_split_nonempty(s: Seq<char>, sep: char)
    ensures
        split(s, sep).len() >= 1,
    decreases s.len(),
{
    if s.len() > 0 {
        lemma_split_nonempty(s.drop_last(), sep);
    }
}

/// A text without the separator is a single field.
pub proof fn lemma_split_without_separator(s: Seq<char>, sep: char)
    requires
        !s.contains(sep),
    ensures
        split(s, sep) == seq![s],
    decreases s.len(),
{
    if s.len() > 0 {
        let t = s.drop_last();
        assert(s[s.len() - 1] != sep);
        assert forall|k: int| 0 <= k < t.len() implies t[k] != sep by {
            assert(t[k] == s[k]);
        }
        lemma_split_without_separator(t, sep);
        assert(t.push(s.last()) =~= s);
        assert(seq![t].drop_last().push(s) =~= seq![s]);
    } else {
        assert(s =~= Seq::empty());
    }
}

/// Splitting is compositional: the fields of `a`, a separator and `b` are the
/// fields of `a` followed by the fields of `b`.
pub proof fn lemma_split_around_separator(a: Seq<char>, b: Seq<char>, sep: char)
    ensures
        split(a.push(sep) + b, sep) == split(a, sep) + split(b, sep),
    decreases b.len(),
{
    let whole = a.push(sep) + b;
    if b.len() == 0 {
        assert(whole =~= a.push(sep));
        assert(whole.drop_last() =~= a);
        assert(split(a, sep).push(Seq::empty()) =~= split(a, sep) + split(b, sep));
    } else {
        let shorter = b.drop_last();
        assert(whole.drop_last() =~= a.push(sep) + shorter);
        assert(whole.last() == b.last());
        lemma_split_around_separator(a, shorter, sep);
        lemma_split_nonempty(shorter, sep);
        let left = split(a, sep);
        let right = split(shorter, sep);
        if b.last() == sep {
            assert((left + right).push(Seq::empty()) =~= left + right.push(Seq::empty()));
        } else {
            let grown = right.last().push(b.last());
            assert((left + right).drop_last() =~= left + right.drop_last());
            assert((left + right.drop_last()).push(grown) =~= left + right.drop_last().push(
                grown,
            ));
        }
    }
}

/// Splitting undoes joining: parts that hold no separator, joined and split
/// again, are the same parts.
pub proof fn lemma_split_join(parts: Seq<Seq<char>>, sep: char)
    requires
        parts.len() >= 1,
        forall|i: int| 0 <= i < parts.len() ==> !(#[trigger] parts[i]).contains(sep),
    ensures
        split(join(parts, sep), sep) == parts,
    decreases parts.len(),
{
    if parts.len() == 1 {
        lemma_split_without_separator(parts[0], sep);
        assert(seq![parts[0]] =~= parts);
    } else {
        let init = parts.drop_last();
        assert forall|i: int| 0 <= i < init.len() implies !(#[trigger] init[i]).contains(sep) by {
            assert(init[i] == parts[i]);
        }
        lemma_split_join(init, sep);
        lemma_split_around_separator(join(init, sep), parts.last(), sep);
        lemma_split_without_separator(parts.last(), sep);
        assert(init + seq![parts.last()] =~= parts);
    }
}

/// A character that is neither the separator nor in any of the parts is not
/// in what they are joined to.
pub proof fn lemma_join_without(parts: Seq<Seq<char>>, sep: char, c: char)
    requires
        c != sep,
        forall|i: int| 0 <= i < parts.len() ==> !(#[trigger] parts[i]).contains(c),
    ensures
        !join(parts, sep).contains(c),
    decreases parts.len(),
{
    if parts.len() >= 2 {
        let init = parts.drop_last();
        assert forall|i: int| 0 <= i < init.len() implies !(#[trigger] init[i]).contains(c) by {
            assert(init[i] == parts[i]);
        }
        lemma_join_without(init, sep, c);
        let head = join(init, sep).push(sep);
        let whole = head + parts.last();
        if whole.contains(c) {
            let k = choose|k: int| 0 <= k < whole.len() && whole[k] == c;
            if k < head.len() - 1 {
                assert(join(init, sep)[k] == c);
            } else if k >= head.len() {
                assert(parts.last()[k - head.len()] == c);
            }
        }
    } else if parts.len() == 1 {
        assert(!parts[0].contains(c));
    }
}

/// Where a joined text starts and ends: with the first character of the first
/// part, if that part is not empty, and with the last character of the last
/// part or, if that part is empty and not the only one, with the separator.
pub proof fn lemma_join_ends(parts: Seq<Seq<char>>, sep: char)
    requires
        parts.len() >= 1,
        parts[0].len() > 0,
    ensures
        join(parts, sep).len() > 0,
        join(parts, sep)[0] == parts[0][0],
        join(parts, sep).last() == if parts.last().len() > 0 {
            parts.last().last()
        } else {
            sep
        },
    decreases parts.len(),
{
    if parts.len() >= 2 {
        let init = parts.drop_last();
        assert(init[0] == parts[0]);
        lemma_join_ends(init, sep);
    }
}

/// Whether `c` is white space.
pub fn char_is_whitespace(c: char) -> (b: bool)
    ensures
        b == is_whitespace(c),
{
    let u: u32 = c as u32;
    (0x09 <= u && u <= 0x0d) || u == 0x20 || u == 0x85 || u == 0xa0 || u == 0x1680 || (0x2000 <= u
        && u <= 0x200a) || u == 0x2028 || u == 0x2029 || u == 0x202f || u == 0x205f || u
        == 0x3000
}

/// The characters of `s`, in order.
pub fn to_chars(s: &str) -> (v: Vec<char>)
    ensures
        v@ == s@,
{
    let mut v: Vec<char> = Vec::new();
    for c in it: s.chars()
        invariant
            it.seq() == s@,
            v@ == s@.take(it.index() as int),
    {
        v.push(c);
    }
    v
}

/// Whether `a` holds exactly the characters `chars`.
pub fn equals_chars(a: &str, chars: &Vec<char>) -> (same: bool)
    ensures
        same == (a@ == chars@),
{
    let mut same = true;
    let mut i: usize = 0;
    for c in it: a.chars()
        invariant
            it.seq() == a@,
            i == if same {
                it.index()
            } else {
                0
            },
            same ==> i <= chars.len() && a@.take(i as int) == chars@.take(i as int),
            !same ==> a@ != chars@,
    {
        if same {
            if i < chars.len() && chars[i] == c {
                assert(a@.take(i + 1) =~= a@.take(i as int).push(c));
                assert(chars@.take(i + 1) =~= chars@.take(i as int).push(c));
                i = i + 1;
            } else {
                assert(a@[i as int] == c);
                same = false;
                i = 0;
            }
        }
    }
    if same {
        assert(a@.take(i as int) =~= a@);
        if i == chars.len() {
            assert(chars@.take(i as int) =~= chars@);
        } else {
            assert(chars@.take(i as int).len() != chars@.len());
        }
    }
    same && i == chars.len()
}

/// Whether the two texts hold the same characters.
pub fn str_eq(a: &str, b: &str) -> (same: bool)
    ensures
        same == (a@ == b@),
{
    let chars = to_chars(b);
    equals_chars(a, &chars)
}

/// Whether `c` occurs in `s`.
pub fn contains_char(s: &str, c: char) -> (found: bool)
    ensures
        found == s@.contains(c),
{
    let mut found = false;
    for d in it: s.chars()
        invariant
            it.seq() == s@,
            found == s@.take(it.index() as int).contains(c),
    {
        let ghost before = s@.take(it.index() as int);
        let ghost after = s@.take(it.index() + 1);
        proof {
            assert(after =~= before.push(d));
            if before.contains(c) {
                let k = choose|k: int| 0 <= k < before.len() && before[k] == c;
                assert(after[k] == c);
            }
            if d == c {
                assert(after[after.len() - 1] == c);
            }
        }
        if d == c {
            found = true;
        }
    }
    assert(s@.take(s@.len() as int) =~= s@);
    found
}

/// Whether some character of `s` is white space.
pub fn contains_whitespace(s: &str) -> (found: bool)
    ensures
        found == has_whitespace(s@),
{
    let mut found = false;
    for c in it: s.chars()
        invariant
            it.seq() == s@,
            found == has_whitespace(s@.take(it.index() as int)),
    {
        let ghost before = s@.take(it.index() as int);
        let ghost after = s@.take(it.index() + 1);
        proof {
            assert(after =~= before.push(c));
            if has_whitespace(before) {
                let k = choose|k: int| 0 <= k < before.len() && is_whitespace(#[trigger] before[k]);
                assert(is_whitespace(after[k]));
            }
            if has_whitespace(after) && !is_whitespace(c) {
                let k = choose|k: int| 0 <= k < after.len() && is_whitespace(#[trigger] after[k]);
                assert(is_whitespace(before[k]));
            }
            if is_whitespace(c) {
                assert(is_whitespace(after[after.len() - 1]));
            }
        }
        if char_is_whitespace(c) {
            found = true;
        }
    }
    assert(s@.take(s@.len() as int) =~= s@);
    found
}

/// The first character of `s`, if it has one.
pub fn first_char(s: &str) -> (first: Option<char>)
    ensures
        match first {
            Some(c) => s@.len() > 0 && c == s@[0],
            None => s@.len() == 0,
        },
{
    if s.is_empty() {
        None
    } else {
        Some(s.get_char(0))
    }
}

/// `s` without the white space at its two ends, as a slice of `s`.
pub fn trim_str(s: &str) -> (t: &str)
    ensures
        t@ == trim(s@),
{
    let n = s.unicode_len();
    let mut start: usize = 0;
    let mut end: usize = 0;
    let mut found = false;
    let mut i: usize = 0;
    for c in it: s.chars()
        invariant
            it.seq() == s@,
            n == s@.len(),
            i == it.index(),
            i <= n,
            !found ==> forall|k: int| 0 <= k < i ==> is_whitespace(s@[k]),
            found ==> start < end <= i,
            found ==> forall|k: int| 0 <= k < start ==> is_whitespace(s@[k]),
            found ==> !is_whitespace(s@[start as int]) && !is_whitespace(s@[end - 1]),
            found ==> forall|k: int| end <= k < i ==> is_whitespace(s@[k]),
    {
        if !char_is_whitespace(c) {
            if !found {
                start = i;
                found = true;
            }
            end = i + 1;
        }
        i = i + 1;
    }
    proof {
        if found {
            lemma_leading_whitespace(s@, start as int);
            lemma_trailing_whitespace(s@, n - end);
        } else {
            lemma_leading_whitespace(s@, n as int);
        }
    }
    if found {
        s.substring_char(start, end)
    } else {
        s.substring_char(0, 0)
    }
}

/// Appends `c` to `s`.
///
/// Trusted: stands for `String::push` of the standard library, which appends
/// the given character to the end of the string.
#[verifier::external_body]
pub(crate) fn push_char(s: &mut String, c: char)
    ensures
        final(s)@ == old(s)@.push(c),
{
    s.push(c);
}

/// The fields of `s` between the occurrences of `sep`, each as a string of its
/// own.
pub fn split_str(s: &str, sep: char) -> (parts: Vec<String>)
    ensures
        views(parts@) == split(s@, sep),
{
    let mut parts: Vec<String> = Vec::new();
    let mut current = String::new();
    proof {
        assert(s@.take(0) =~= Seq::empty());
        assert(views(parts@).push(current@) =~= seq![Seq::empty()]);
    }
    for c in it: s.chars()
        invariant
            it.seq() == s@,
            views(parts@).push(current@) == split(s@.take(it.index() as int), sep),
    {
        let ghost read = s@.take(it.index() as int);
        let ghost next = s@.take(it.index() + 1);
        let ghost closed = views(parts@);
        let ghost field = current@;
        proof {
            assert(next.drop_last() =~= read);
            assert(next.last() == c);
            assert(closed.push(field).drop_last() =~= closed);
        }
        if c == sep {
            parts.push(current);
            current = String::new();
            proof {
                assert(views(parts@) =~= closed.push(field));
            }
        } else {
            push_char(&mut current, c);
        }
    }
    proof {
        assert(s@.take(s@.len() as int) =~= s@);
        assert(views(parts@.push(current)) =~= views(parts@).push(current@));
    }
    parts.push(current);
    parts
}

/// The strings of `parts` in order, with `sep` between each two neighbours.
pub fn join_strings(parts: &Vec<String>, sep: char) -> (joined: String)
    ensures
        joined@ == join(views(parts@), sep),
{
    let mut joined = String::new();
    let mut i: usize = 0;
    while i < parts.len()
        invariant
            i <= parts.len(),
            joined@ == join(views(parts@).take(i as int), sep),
        decreases parts.len() - i,
    {
        let ghost done = views(parts@).take(i as int);
        let ghost more = views(parts@).take(i + 1);
        proof {
            assert(more.drop_last() =~= done);
            assert(more.last() == parts@[i as int]@);
            if i == 0 {
                assert(Seq::<char>::empty() + parts@[0]@ =~= parts@[0]@);
            }
        }
        if i > 0 {
            push_char(&mut joined, sep);
        }
        joined.append(parts[i].as_str());
        i = i + 1;
    }
    proof {
        assert(views(parts@).take(parts@.len() as int) =~= views(parts@));
    }
    joined
}

} // verus!
