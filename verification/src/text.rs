use vstd::prelude::*;

verus! {

// ---------------------------------------------------------------------------
// Splitting and joining character sequences around a separator.
// ---------------------------------------------------------------------------

/// `p` is a prefix of `s`.
pub open spec fn seq_starts_with(s: Seq<char>, p: Seq<char>) -> bool {
    p.len() <= s.len() && s.subrange(0, p.len() as int) == p
}

/// The separator occurs in `s` starting at position `i`.
pub open spec fn occurrence_at(s: Seq<char>, i: int, sep: Seq<char>) -> bool {
    0 <= i && i + sep.len() <= s.len() && s.subrange(i, i + sep.len()) == sep
}

/// Position of the first occurrence of `sep` in `s`, or -1 if there is none.
pub open spec fn first_occurrence(s: Seq<char>, sep: Seq<char>) -> int
    decreases s.len(),
{
    if seq_starts_with(s, sep) {
        0
    } else if s.len() == 0 {
        -1
    } else {
        let r = first_occurrence(s.drop_first(), sep);
        if r < 0 {
            -1
        } else {
            r + 1
        }
    }
}

/// `s` split around every occurrence of `sep`, occurrences removed.
/// Splitting never yields an empty list: a separator-free `s` gives `[s]`.
pub open spec fn split_seq(s: Seq<char>, sep: Seq<char>) -> Seq<Seq<char>>
    decreases s.len(),
{
    let i = first_occurrence(s, sep);
    if sep.len() == 0 || i < 0 || i + sep.len() > s.len() {
        seq![s]
    } else {
        seq![s.subrange(0, i)] + split_seq(s.subrange(i + sep.len(), s.len() as int), sep)
    }
}

/// `s` split after every occurrence of `sep`, occurrences kept at the end of
/// their part; a trailing remainder without a separator forms a final part.
/// An empty `s` gives no parts at all.
pub open spec fn split_inclusive_seq(s: Seq<char>, sep: Seq<char>) -> Seq<Seq<char>>
    decreases s.len(),
{
    if s.len() == 0 {
        Seq::empty()
    } else {
        let i = first_occurrence(s, sep);
        if sep.len() == 0 || i < 0 || i + sep.len() >= s.len() {
            seq![s]
        } else {
            seq![s.subrange(0, i + sep.len() as int)] + split_inclusive_seq(
                s.subrange(i + sep.len() as int, s.len() as int),
                sep,
            )
        }
    }
}

/// The parts glued together with `sep` between consecutive parts.
pub open spec fn join_seq(parts: Seq<Seq<char>>, sep: Seq<char>) -> Seq<char>
    decreases parts.len(),
{
    if parts.len() == 0 {
        Seq::empty()
    } else if parts.len() == 1 {
        parts[0]
    } else {
        parts[0] + sep + join_seq(parts.drop_first(), sep)
    }
}

/// No character of `part` appears in `sep`; such a part can never overlap
/// an occurrence of the separator.
pub open spec fn avoids(part: Seq<char>, sep: Seq<char>) -> bool {
    forall|i: int, j: int|
        0 <= i < part.len() && 0 <= j < sep.len() ==> part[i] != sep[j]
}

/// Shifting an occurrence across the first character.
proof fn lemma_occurrence_shift(s: Seq<char>, sep: Seq<char>, j: int)
    requires
        s.len() >= 1,
        1 <= j,
    ensures
        occurrence_at(s, j, sep) <==> occurrence_at(s.drop_first(), j - 1, sep),
{
    if occurrence_at(s, j, sep) {
        assert(s.drop_first().subrange(j - 1, j - 1 + sep.len()) =~= s.subrange(
            j,
            j + sep.len(),
        ));
    }
    if occurrence_at(s.drop_first(), j - 1, sep) {
        assert(s.subrange(j, j + sep.len()) =~= s.drop_first().subrange(
            j - 1,
            j - 1 + sep.len(),
        ));
    }
}

/// `first_occurrence` really is the least occurrence position, and -1 means
/// there is none.
pub proof fn lemma_first_occurrence_spec(s: Seq<char>, sep: Seq<char>)
    requires
        sep.len() >= 1,
    ensures
        first_occurrence(s, sep) >= 0 ==> {
            &&& first_occurrence(s, sep) + sep.len() <= s.len()
            &&& occurrence_at(s, first_occurrence(s, sep), sep)
            &&& forall|j: int| 0 <= j < first_occurrence(s, sep) ==> !occurrence_at(s, j, sep)
        },
        first_occurrence(s, sep) == -1 ==> forall|j: int| !occurrence_at(s, j, sep),
        first_occurrence(s, sep) >= -1,
    decreases s.len(),
{
    if seq_starts_with(s, sep) {
        assert(occurrence_at(s, 0, sep));
    } else if s.len() == 0 {
    } else {
        lemma_first_occurrence_spec(s.drop_first(), sep);
        let r = first_occurrence(s.drop_first(), sep);
        assert(!occurrence_at(s, 0, sep)) by {
            if occurrence_at(s, 0, sep) {
                assert(seq_starts_with(s, sep));
            }
        }
        if r < 0 {
            assert forall|j: int| !occurrence_at(s, j, sep) by {
                if j >= 1 {
                    lemma_occurrence_shift(s, sep, j);
                }
            }
        } else {
            lemma_occurrence_shift(s, sep, r + 1);
            assert forall|j: int| 0 <= j < r + 1 implies !occurrence_at(s, j, sep) by {
                if j >= 1 {
                    lemma_occurrence_shift(s, sep, j);
                }
            }
        }
    }
}

/// A sequence that avoids the separator's characters holds no occurrence.
pub proof fn lemma_avoids_no_occurrence(s: Seq<char>, sep: Seq<char>)
    requires
        sep.len() >= 1,
        avoids(s, sep),
    ensures
        first_occurrence(s, sep) == -1,
{
    lemma_first_occurrence_spec(s, sep);
    let f = first_occurrence(s, sep);
    if f >= 0 {
        assert(s.subrange(f, f + sep.len())[0] == sep[0]);
        assert(s[f] == sep[0]);
        assert(false);
    }
}

/// After a separator-free prefix `p`, the first occurrence of `sep` in
/// `p + sep + t` is exactly at `p.len()`.
pub proof fn lemma_prefix_occurrence(p: Seq<char>, sep: Seq<char>, t: Seq<char>)
    requires
        sep.len() >= 1,
        avoids(p, sep),
    ensures
        first_occurrence(p + sep + t, sep) == p.len(),
{
    let s = p + sep + t;
    lemma_first_occurrence_spec(s, sep);
    assert(occurrence_at(s, p.len() as int, sep)) by {
        assert(s.subrange(p.len() as int, p.len() + sep.len() as int) =~= sep);
    }
    assert forall|j: int| 0 <= j < p.len() implies !occurrence_at(s, j, sep) by {
        if occurrence_at(s, j, sep) {
            assert(s.subrange(j, j + sep.len())[0] == sep[0]);
            assert(s[j] == sep[0]);
            assert(s[j] == p[j]);
            assert(false);
        }
    }
    let f = first_occurrence(s, sep);
    assert(f != -1);
    assert(f <= p.len());
    assert(f >= p.len());
}

/// Round trip: splitting a joined list of separator-free parts gives the
/// parts back.
pub proof fn lemma_split_join(parts: Seq<Seq<char>>, sep: Seq<char>)
    requires
        parts.len() >= 1,
        sep.len() >= 1,
        forall|i: int| 0 <= i < parts.len() ==> avoids(#[trigger] parts[i], sep),
    ensures
        split_seq(join_seq(parts, sep), sep) == parts,
    decreases parts.len(),
{
    if parts.len() == 1 {
        lemma_avoids_no_occurrence(parts[0], sep);
        assert(split_seq(join_seq(parts, sep), sep) =~= parts);
    } else {
        let rest = parts.drop_first();
        let s = parts[0] + sep + join_seq(rest, sep);
        assert(join_seq(parts, sep) == s);
        lemma_prefix_occurrence(parts[0], sep, join_seq(rest, sep));
        let i = first_occurrence(s, sep);
        assert(i == parts[0].len());
        assert(s.subrange(0, i) =~= parts[0]);
        assert(s.subrange(i + sep.len(), s.len() as int) =~= join_seq(rest, sep));
        assert(forall|k: int|
            0 <= k < rest.len() ==> avoids(#[trigger] rest[k], sep)) by {
            assert(forall|k: int| 0 <= k < rest.len() ==> rest[k] == parts[k + 1]);
        }
        lemma_split_join(rest, sep);
        assert(split_seq(s, sep) =~= seq![s.subrange(0, i)] + split_seq(
            s.subrange(i + sep.len(), s.len() as int),
            sep,
        ));
        assert(split_seq(s, sep) =~= parts);
    }
}

/// Joining composes around any interior cut point.
pub proof fn lemma_join_split_at(parts: Seq<Seq<char>>, sep: Seq<char>, i: int)
    requires
        1 <= i < parts.len(),
    ensures
        join_seq(parts, sep) == join_seq(parts.take(i), sep) + sep + join_seq(
            parts.skip(i),
            sep,
        ),
    decreases i,
{
    if i == 1 {
        assert(parts.take(1) =~~= seq![parts[0]]);
        assert(join_seq(parts.take(1), sep) == parts[0]);
        assert(parts.skip(1) =~~= parts.drop_first());
    } else {
        let rest = parts.drop_first();
        lemma_join_split_at(rest, sep, i - 1);
        assert(rest.take(i - 1) =~~= parts.take(i).drop_first());
        assert(rest.skip(i - 1) =~~= parts.skip(i));
        assert(parts.take(i).len() >= 2);
        assert(join_seq(parts.take(i), sep) == parts.take(i)[0] + sep + join_seq(
            parts.take(i).drop_first(),
            sep,
        ));
        assert(parts.take(i)[0] == parts[0]);
        assert(join_seq(parts, sep) == parts[0] + sep + join_seq(rest, sep));
        assert(join_seq(parts, sep) =~= join_seq(parts.take(i), sep) + sep + join_seq(
            parts.skip(i),
            sep,
        ));
    }
}

/// Concatenation preserves avoidance.
pub proof fn lemma_avoids_concat(a: Seq<char>, b: Seq<char>, t: Seq<char>)
    requires
        avoids(a, t),
        avoids(b, t),
    ensures
        avoids(a + b, t),
{
    assert forall|i: int, j: int|
        0 <= i < (a + b).len() && 0 <= j < t.len() implies (a + b)[i] != t[j] by {
        if i < a.len() {
            assert((a + b)[i] == a[i]);
        } else {
            assert((a + b)[i] == b[i - a.len()]);
        }
    }
}

/// A join of avoiding parts with an avoiding separator avoids.
pub proof fn lemma_join_avoids(parts: Seq<Seq<char>>, sep: Seq<char>, t: Seq<char>)
    requires
        forall|i: int| 0 <= i < parts.len() ==> avoids(#[trigger] parts[i], t),
        avoids(sep, t),
    ensures
        avoids(join_seq(parts, sep), t),
    decreases parts.len(),
{
    if parts.len() == 0 {
    } else if parts.len() == 1 {
        assert(join_seq(parts, sep) == parts[0]);
    } else {
        let rest = parts.drop_first();
        assert(forall|i: int| 0 <= i < rest.len() ==> rest[i] == parts[i + 1]);
        lemma_join_avoids(rest, sep, t);
        lemma_avoids_concat(parts[0], sep, t);
        lemma_avoids_concat(parts[0] + sep, join_seq(rest, sep), t);
    }
}

// ---------------------------------------------------------------------------
// Executable counterparts over `Vec<char>` and `String`.
// ---------------------------------------------------------------------------

/// Copies the character range `[from, to)` out of `v`.
pub fn subvec(v: &Vec<char>, from: usize, to: usize) -> (r: Vec<char>)
    requires
        from <= to <= v@.len(),
    ensures
        r@ == v@.subrange(from as int, to as int),
{
    let mut r: Vec<char> = Vec::new();
    let mut i: usize = from;
    while i < to
        invariant
            from <= i <= to <= v@.len(),
            r@ == v@.subrange(from as int, i as int),
        decreases to - i,
    {
        r.push(v[i]);
        assert(v@.subrange(from as int, i + 1 as int) =~= v@.subrange(from as int, i as int).push(
            v@[i as int],
        ));
        i = i + 1;
    }
    r
}

/// Does `sep` occur in `s` at position `i`?
fn starts_with_at(s: &Vec<char>, i: usize, sep: &Vec<char>) -> (r: bool)
    requires
        i <= s@.len(),
    ensures
        r == occurrence_at(s@, i as int, sep@),
{
    if s.len() - i < sep.len() {
        return false;
    }
    let end = i + sep.len();
    let mut j: usize = i;
    while j < end
        invariant
            end == i + sep@.len(),
            end <= s@.len(),
            i <= j <= end,
            forall|k: int| 0 <= k < j - i ==> s@[i + k] == sep@[k],
        decreases end - j,
    {
        if s[j] != sep[j - i] {
            assert(!occurrence_at(s@, i as int, sep@)) by {
                if occurrence_at(s@, i as int, sep@) {
                    assert(s@.subrange(i as int, i + sep@.len())[j - i] == sep@[j - i]);
                }
            }
            return false;
        }
        j = j + 1;
    }
    assert(s@.subrange(i as int, i + sep@.len()) =~= sep@);
    true
}

/// Finds the first occurrence of `sep` in `s`.
pub fn find_first(s: &Vec<char>, sep: &Vec<char>) -> (r: Option<usize>)
    requires
        sep@.len() >= 1,
    ensures
        ({
            let f = first_occurrence(s@, sep@);
            match r {
                Some(i) => f == i,
                None => f == -1,
            }
        }),
{
    let mut i: usize = 0;
    while i < s.len()
        invariant
            sep@.len() >= 1,
            i <= s@.len(),
            forall|j: int| 0 <= j < i ==> !occurrence_at(s@, j, sep@),
        decreases s@.len() - i,
    {
        if starts_with_at(s, i, sep) {
            proof {
                lemma_first_occurrence_spec(s@, sep@);
                let f = first_occurrence(s@, sep@);
                if f == -1 {
                    assert(!occurrence_at(s@, i as int, sep@));
                }
                assert(f >= 0);
                assert(f >= i);
                assert(f <= i);
            }
            return Some(i);
        }
        i = i + 1;
    }
    proof {
        lemma_first_occurrence_spec(s@, sep@);
    }
    proof {
        let f = first_occurrence(s@, sep@);
        if f >= 0 {
            assert(occurrence_at(s@, f, sep@));
            assert(false);
        }
    }
    None
}

/// Splits `s` around every occurrence of `sep`.
pub fn split_chars(s: &Vec<char>, sep: &Vec<char>) -> (r: Vec<Vec<char>>)
    requires
        sep@.len() >= 1,
    ensures
        r.deep_view() == split_seq(s@, sep@),
{
    let mut acc: Vec<Vec<char>> = Vec::new();
    let mut rest: Vec<char> = subvec(s, 0, s.len());
    assert(rest@ =~= s@);
    loop
        invariant
            sep@.len() >= 1,
            split_seq(s@, sep@) == acc.deep_view() + split_seq(rest@, sep@),
        decreases rest@.len(),
    {
        let ghost prev = acc.deep_view();
        match find_first(&rest, sep) {
            Some(i) => {
                proof {
                    lemma_first_occurrence_spec(rest@, sep@);
                }
                let rlen = rest.len();
                assert(i + sep@.len() <= rlen);
                let part = subvec(&rest, 0, i);
                let next = subvec(&rest, i + sep.len(), rlen);
                acc.push(part);
                assert(acc.deep_view() =~~= prev.push(rest@.subrange(0, i as int)));
                assert(split_seq(rest@, sep@) == seq![rest@.subrange(0, i as int)] + split_seq(
                    next@,
                    sep@,
                ));
                assert(split_seq(s@, sep@) =~~= acc.deep_view() + split_seq(next@, sep@));
                rest = next;
            },
            None => {
                assert(split_seq(rest@, sep@) == seq![rest@]);
                acc.push(rest);
                assert(acc.deep_view() =~~= prev.push(prev.add(seq![rest@])[prev.len() as int]));
                assert(acc.deep_view() =~~= split_seq(s@, sep@));
                return acc;
            },
        }
    }
}

/// Splits `s` after every occurrence of `sep`, keeping the separators.
pub fn split_inclusive_chars(s: &Vec<char>, sep: &Vec<char>) -> (r: Vec<Vec<char>>)
    requires
        sep@.len() >= 1,
    ensures
        r.deep_view() == split_inclusive_seq(s@, sep@),
{
    let mut acc: Vec<Vec<char>> = Vec::new();
    let mut rest: Vec<char> = subvec(s, 0, s.len());
    assert(rest@ =~= s@);
    loop
        invariant
            sep@.len() >= 1,
            split_inclusive_seq(s@, sep@) == acc.deep_view() + split_inclusive_seq(rest@, sep@),
        decreases rest@.len(),
    {
        let ghost prev = acc.deep_view();
        if rest.len() == 0 {
            assert(split_inclusive_seq(rest@, sep@) =~~= Seq::<Seq<char>>::empty());
            assert(acc.deep_view() =~~= split_inclusive_seq(s@, sep@));
            return acc;
        }
        match find_first(&rest, sep) {
            Some(i) => {
                proof {
                    lemma_first_occurrence_spec(rest@, sep@);
                }
                let rlen = rest.len();
                assert(i + sep@.len() <= rlen);
                if i + sep.len() == rlen {
                    assert(split_inclusive_seq(rest@, sep@) == seq![rest@]);
                    acc.push(rest);
                    assert(acc.deep_view() =~~= prev.push(
                        prev.add(seq![rest@])[prev.len() as int],
                    ));
                    assert(acc.deep_view() =~~= split_inclusive_seq(s@, sep@));
                    return acc;
                }
                let part = subvec(&rest, 0, i + sep.len());
                let next = subvec(&rest, i + sep.len(), rlen);
                acc.push(part);
                assert(acc.deep_view() =~~= prev.push(
                    rest@.subrange(0, i + sep@.len() as int),
                ));
                assert(split_inclusive_seq(rest@, sep@) == seq![rest@.subrange(
                    0,
                    i + sep@.len() as int,
                )] + split_inclusive_seq(next@, sep@));
                assert(split_inclusive_seq(s@, sep@) =~~= acc.deep_view()
                    + split_inclusive_seq(next@, sep@));
                rest = next;
            },
            None => {
                assert(split_inclusive_seq(rest@, sep@) == seq![rest@]);
                acc.push(rest);
                assert(acc.deep_view() =~~= prev.push(prev.add(seq![rest@])[prev.len() as int]));
                assert(acc.deep_view() =~~= split_inclusive_seq(s@, sep@));
                return acc;
            },
        }
    }
}

/// Appends one character to a string.
/// Relies on `String::push` from std: it appends exactly the given character.
#[verifier::external_body]
pub fn push_char(s: &mut String, c: char)
    ensures
        final(s)@ == old(s)@ + seq![c],
{
    s.push(c);
}

/// Rebuilds a `String` from a character vector.
pub fn chars_to_string(v: &Vec<char>) -> (r: String)
    ensures
        r@ == v@,
{
    let mut r = String::new();
    let mut i: usize = 0;
    while i < v.len()
        invariant
            i <= v@.len(),
            r@ == v@.subrange(0, i as int),
        decreases v@.len() - i,
    {
        push_char(&mut r, v[i]);
        assert(v@.subrange(0, i + 1 as int) =~= v@.subrange(0, i as int) + seq![v@[i as int]]);
        i = i + 1;
    }
    assert(v@.subrange(0, v@.len() as int) =~= v@);
    r
}

/// Collects the characters of a string slice.
pub fn str_to_chars(s: &str) -> (r: Vec<char>)
    ensures
        r@ == s@,
{
    let n = s.unicode_len();
    let mut r: Vec<char> = Vec::new();
    let mut i: usize = 0;
    while i < n
        invariant
            n == s@.len(),
            i <= n,
            r@ == s@.subrange(0, i as int),
        decreases n - i,
    {
        r.push(s.get_char(i));
        assert(s@.subrange(0, i + 1 as int) =~= s@.subrange(0, i as int).push(s@[i as int]));
        i = i + 1;
    }
    assert(s@.subrange(0, s@.len() as int) =~= s@);
    r
}

/// Joins a list of strings with `sep` between consecutive entries.
pub fn join_strings(parts: &Vec<String>, sep: &str) -> (r: String)
    ensures
        r@ == join_seq(parts.deep_view(), sep@),
{
    if parts.len() == 0 {
        return String::new();
    }
    let mut r = parts[0].clone();
    assert(r@ == parts.deep_view()[0]);
    assert(parts.deep_view().take(1) =~~= seq![parts.deep_view()[0]]);
    let mut i: usize = 1;
    while i < parts.len()
        invariant
            1 <= i <= parts@.len(),
            parts.deep_view().len() == parts@.len(),
            r@ == join_seq(parts.deep_view().take(i as int), sep@),
        decreases parts@.len() - i,
    {
        r.append(sep);
        r.append(parts[i].as_str());
        proof {
            let dv = parts.deep_view();
            lemma_join_split_at(dv.take(i + 1), sep@, i as int);
            assert(dv.take(i + 1).take(i as int) =~~= dv.take(i as int));
            assert(dv.take(i + 1).skip(i as int) =~~= seq![dv[i as int]]);
            assert(join_seq(seq![dv[i as int]], sep@) == dv[i as int]);
        }
        i = i + 1;
    }
    assert(parts.deep_view().take(parts@.len() as int) =~~= parts.deep_view());
    r
}

} // verus!
