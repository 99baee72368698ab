//! Byte-level text utilities for the upload format: splitting the payload
//! into lines, splitting a line into delimited fields, and trimming
//! whitespace from a field.

use vstd::prelude::*;

verus! {

pub open spec fn is_space(b: u8) -> bool {
    b == 32u8 || b == 9u8 || b == 10u8 || b == 12u8 || b == 13u8
}

pub open spec fn views(r: Seq<Vec<u8>>) -> Seq<Seq<u8>> {
    r.map_values(|v: Vec<u8>| v@)
}

/// The payload split at line feeds, a carriage return directly before a line
/// feed dropped, and no trailing empty line for a payload that ends with a
/// line terminator.
pub open spec fn spec_split_lines(s: Seq<u8>) -> Seq<Seq<u8>>
    decreases s.len(),
{
    if s.len() == 0 {
        Seq::empty()
    } else if s[0] == 10u8 {
        seq![Seq::<u8>::empty()] + spec_split_lines(s.skip(1))
    } else if s[0] == 13u8 && s.len() >= 2 && s[1] == 10u8 {
        seq![Seq::<u8>::empty()] + spec_split_lines(s.skip(2))
    } else {
        let r = spec_split_lines(s.skip(1));
        if r.len() == 0 {
            seq![seq![s[0]]]
        } else {
            seq![seq![s[0]] + r[0]] + r.skip(1)
        }
    }
}

/// A line split at commas: always one field more than there are commas.
pub open spec fn spec_split_fields(s: Seq<u8>) -> Seq<Seq<u8>>
    decreases s.len(),
{
    if s.len() == 0 {
        seq![Seq::<u8>::empty()]
    } else if s[0] == 44u8 {
        seq![Seq::<u8>::empty()] + spec_split_fields(s.skip(1))
    } else {
        let r = spec_split_fields(s.skip(1));
        seq![seq![s[0]] + r[0]] + r.skip(1)
    }
}

pub open spec fn spec_trim_start(s: Seq<u8>) -> Seq<u8>
    decreases s.len(),
{
    if s.len() == 0 {
        s
    } else if is_space(s[0]) {
        spec_trim_start(s.skip(1))
    } else {
        s
    }
}

pub open spec fn spec_trim_end(s: Seq<u8>) -> Seq<u8>
    decreases s.len(),
{
    if s.len() == 0 {
        s
    } else if is_space(s.last()) {
        spec_trim_end(s.drop_last())
    } else {
        s
    }
}

pub open spec fn spec_trim(s: Seq<u8>) -> Seq<u8> {
    spec_trim_end(spec_trim_start(s))
}

pub proof fn lemma_split_fields_len(s: Seq<u8>)
    ensures
        spec_split_fields(s).len() >= 1,
    decreases s.len(),
{
    if s.len() == 0 {
    } else {
        lemma_split_fields_len(s.skip(1));
    }
}

/// A partially read line placed back in front of the lines still to come.
pub open spec fn prepend_line(c: Seq<u8>, r: Seq<Seq<u8>>) -> Seq<Seq<u8>> {
    if r.len() == 0 {
        if c.len() == 0 {
            Seq::empty()
        } else {
            seq![c]
        }
    } else {
        seq![c + r[0]] + r.skip(1)
    }
}

/// A partially read field placed back in front of the fields still to come.
pub open spec fn prepend_field(c: Seq<u8>, r: Seq<Seq<u8>>) -> Seq<Seq<u8>> {
    seq![c + r[0]] + r.skip(1)
}

proof fn lemma_prepend_line_empty(r: Seq<Seq<u8>>)
    ensures
        prepend_line(Seq::empty(), r) == r,
{
    if r.len() == 0 {
        assert(prepend_line(Seq::empty(), r) =~= r);
    } else {
        assert(Seq::empty() + r[0] =~= r[0]);
        assert(seq![r[0]] + r.skip(1) =~= r);
    }
}

proof fn lemma_prepend_field_empty(r: Seq<Seq<u8>>)
    requires
        r.len() >= 1,
    ensures
        prepend_field(Seq::empty(), r) == r,
{
    assert(Seq::empty() + r[0] =~= r[0]);
    assert(seq![r[0]] + r.skip(1) =~= r);
}

pub fn split_lines(s: &Vec<u8>) -> (r: Vec<Vec<u8>>)
    ensures
        views(r@) == spec_split_lines(s@),
{
    let n = s.len();
    let mut done: Vec<Vec<u8>> = Vec::new();
    let mut cur: Vec<u8> = Vec::new();
    let mut i: usize = 0;
    proof {
        assert(s@.skip(0) =~= s@);
        lemma_prepend_line_empty(spec_split_lines(s@));
        assert(views(done@) =~= Seq::<Seq<u8>>::empty());
    }
    while i < n
        invariant
            i <= n,
            n == s@.len(),
            spec_split_lines(s@) == views(done@) + prepend_line(
                cur@,
                spec_split_lines(s@.skip(i as int)),
            ),
        decreases n - i,
    {
        let ghost rest = s@.skip(i as int);
        let b = s[i];
        if b == 10u8 {
            proof {
                assert(rest.skip(1) =~= s@.skip(i as int + 1));
                let r2 = spec_split_lines(s@.skip(i as int + 1));
                assert(spec_split_lines(rest) == seq![Seq::<u8>::empty()] + r2);
                assert(cur@ + Seq::<u8>::empty() =~= cur@);
                assert((seq![Seq::<u8>::empty()] + r2).skip(1) =~= r2);
                lemma_prepend_line_empty(r2);
                assert(prepend_line(cur@, spec_split_lines(rest)) =~= seq![cur@] + r2);
                assert(views(done@.push(cur)) =~= views(done@).push(cur@));
                assert(views(done@).push(cur@) + r2 =~= views(done@) + (seq![cur@] + r2));
            }
            done.push(cur);
            cur = Vec::new();
            i += 1;
        } else if b == 13u8 && i + 1 < n && s[i + 1] == 10u8 {
            proof {
                assert(rest.skip(2) =~= s@.skip(i as int + 2));
                assert(rest[1] == s@[i as int + 1]);
                let r2 = spec_split_lines(s@.skip(i as int + 2));
                assert(spec_split_lines(rest) == seq![Seq::<u8>::empty()] + r2);
                assert(cur@ + Seq::<u8>::empty() =~= cur@);
                assert((seq![Seq::<u8>::empty()] + r2).skip(1) =~= r2);
                lemma_prepend_line_empty(r2);
                assert(prepend_line(cur@, spec_split_lines(rest)) =~= seq![cur@] + r2);
                assert(views(done@.push(cur)) =~= views(done@).push(cur@));
                assert(views(done@).push(cur@) + r2 =~= views(done@) + (seq![cur@] + r2));
            }
            done.push(cur);
            cur = Vec::new();
            i += 2;
        } else {
            proof {
                assert(rest.skip(1) =~= s@.skip(i as int + 1));
                assert(rest[0] == b && !(rest[0] == 10u8) && !(rest[0] == 13u8 && rest.len() >= 2
                    && rest[1] == 10u8)) by {
                    if i + 1 < n {
                        assert(rest[1] == s@[i as int + 1]);
                    }
                };
                let r2 = spec_split_lines(s@.skip(i as int + 1));
                if r2.len() == 0 {
                    assert(spec_split_lines(rest) == seq![seq![b]]);
                    assert(cur@ + seq![b] =~= cur@.push(b));
                    assert(prepend_line(cur@, spec_split_lines(rest)) =~= seq![cur@.push(b)]);
                    assert(prepend_line(cur@.push(b), r2) =~= seq![cur@.push(b)]);
                } else {
                    assert(spec_split_lines(rest) == seq![seq![b] + r2[0]] + r2.skip(1));
                    assert(cur@ + (seq![b] + r2[0]) =~= cur@.push(b) + r2[0]);
                    assert(prepend_line(cur@, spec_split_lines(rest)) =~= prepend_line(
                        cur@.push(b),
                        r2,
                    ));
                }
            }
            cur.push(b);
            i += 1;
        }
    }
    proof {
        assert(s@.skip(n as int) =~= Seq::<u8>::empty());
        assert(spec_split_lines(s@.skip(n as int)).len() == 0);
    }
    if cur.len() > 0 {
        proof {
            assert(views(done@.push(cur)) =~= views(done@).push(cur@));
            assert(views(done@) + seq![cur@] =~= views(done@).push(cur@));
        }
        done.push(cur);
    } else {
        proof {
            assert(views(done@) + Seq::<Seq<u8>>::empty() =~= views(done@));
        }
    }
    done
}

pub fn split_fields(s: &Vec<u8>) -> (r: Vec<Vec<u8>>)
    ensures
        views(r@) == spec_split_fields(s@),
        r@.len() >= 1,
{
    let n = s.len();
    let mut done: Vec<Vec<u8>> = Vec::new();
    let mut cur: Vec<u8> = Vec::new();
    let mut i: usize = 0;
    proof {
        assert(s@.skip(0) =~= s@);
        lemma_split_fields_len(s@);
        lemma_prepend_field_empty(spec_split_fields(s@));
        assert(views(done@) =~= Seq::<Seq<u8>>::empty());
    }
    while i < n
        invariant
            i <= n,
            n == s@.len(),
            spec_split_fields(s@) == views(done@) + prepend_field(
                cur@,
                spec_split_fields(s@.skip(i as int)),
            ),
        decreases n - i,
    {
        let ghost rest = s@.skip(i as int);
        let b = s[i];
        proof {
            assert(rest.skip(1) =~= s@.skip(i as int + 1));
            lemma_split_fields_len(s@.skip(i as int + 1));
        }
        if b == 44u8 {
            proof {
                let r2 = spec_split_fields(s@.skip(i as int + 1));
                assert(spec_split_fields(rest) == seq![Seq::<u8>::empty()] + r2);
                assert(cur@ + Seq::<u8>::empty() =~= cur@);
                assert((seq![Seq::<u8>::empty()] + r2).skip(1) =~= r2);
                lemma_prepend_field_empty(r2);
                assert(prepend_field(cur@, spec_split_fields(rest)) =~= seq![cur@] + r2);
                assert(views(done@.push(cur)) =~= views(done@).push(cur@));
                assert(views(done@).push(cur@) + r2 =~= views(done@) + (seq![cur@] + r2));
            }
            done.push(cur);
            cur = Vec::new();
            i += 1;
        } else {
            proof {
                let r2 = spec_split_fields(s@.skip(i as int + 1));
                assert(rest[0] == b);
                assert(spec_split_fields(rest) == seq![seq![b] + r2[0]] + r2.skip(1));
                assert(cur@ + (seq![b] + r2[0]) =~= cur@.push(b) + r2[0]);
                assert(prepend_field(cur@, spec_split_fields(rest)) =~= prepend_field(
                    cur@.push(b),
                    r2,
                ));
            }
            cur.push(b);
            i += 1;
        }
    }
    proof {
        assert(s@.skip(n as int) =~= Seq::<u8>::empty());
        assert(spec_split_fields(s@.skip(n as int)) == seq![Seq::<u8>::empty()]);
        assert(cur@ + Seq::<u8>::empty() =~= cur@);
        assert((seq![Seq::<u8>::empty()]).skip(1) =~= Seq::<Seq<u8>>::empty());
        assert(prepend_field(cur@, seq![Seq::<u8>::empty()]) =~= seq![cur@]);
        assert(views(done@.push(cur)) =~= views(done@).push(cur@));
        assert(views(done@) + seq![cur@] =~= views(done@).push(cur@));
    }
    done.push(cur);
    done
}

proof fn lemma_trim_start_at(s: Seq<u8>, k: int)
    requires
        0 <= k <= s.len(),
        forall|j: int| 0 <= j < k ==> is_space(s[j]),
        k < s.len() ==> !is_space(s[k]),
    ensures
        spec_trim_start(s) == s.skip(k),
    decreases k,
{
    if k == 0 {
        assert(s.skip(0) =~= s);
    } else {
        assert(forall|j: int| 0 <= j < k - 1 ==> is_space(#[trigger] s.skip(1)[j]));
        assert(k - 1 < s.skip(1).len() ==> !is_space(s.skip(1)[k - 1]));
        lemma_trim_start_at(s.skip(1), k - 1);
        assert(s.skip(1).skip(k - 1) =~= s.skip(k));
    }
}

proof fn lemma_trim_end_at(s: Seq<u8>, h: int)
    requires
        0 <= h <= s.len(),
        forall|j: int| h <= j < s.len() ==> is_space(s[j]),
        h > 0 ==> !is_space(s[h - 1]),
    ensures
        spec_trim_end(s) == s.take(h),
    decreases s.len(),
{
    if h == s.len() {
        if s.len() > 0 {
            assert(s.take(h) =~= s);
        } else {
            assert(s.take(0) =~= s);
        }
    } else {
        assert(is_space(s.last()));
        assert(forall|j: int|
            h <= j < s.drop_last().len() ==> is_space(#[trigger] s.drop_last()[j]));
        assert(h > 0 ==> !is_space(s.drop_last()[h - 1]));
        lemma_trim_end_at(s.drop_last(), h);
        assert(s.drop_last().take(h) =~= s.take(h));
    }
}

pub fn trim_bytes(s: &Vec<u8>) -> (r: Vec<u8>)
    ensures
        r@ == spec_trim(s@),
{
    let n = s.len();
    let mut lo: usize = 0;
    while lo < n && (s[lo] == 32u8 || s[lo] == 9u8 || s[lo] == 10u8 || s[lo] == 12u8 || s[lo]
        == 13u8)
        invariant
            lo <= n,
            n == s@.len(),
            forall|j: int| 0 <= j < lo ==> is_space(s@[j]),
        decreases n - lo,
    {
        lo += 1;
    }
    proof {
        lemma_trim_start_at(s@, lo as int);
    }
    if lo == n {
        proof {
            assert(s@.skip(n as int) =~= Seq::<u8>::empty());
        }
        return Vec::new();
    }
    let mut hi: usize = n;
    while hi > lo + 1 && (s[hi - 1] == 32u8 || s[hi - 1] == 9u8 || s[hi - 1] == 10u8 || s[hi - 1]
        == 12u8 || s[hi - 1] == 13u8)
        invariant
            lo + 1 <= hi <= n,
            n == s@.len(),
            forall|j: int| hi <= j < n ==> is_space(s@[j]),
        decreases hi,
    {
        hi -= 1;
    }
    // The byte at `lo` is not whitespace, so the loop above cannot make the
    // trimmed range empty, and the byte at `hi - 1` is not whitespace either.
    proof {
        let t = s@.skip(lo as int);
        if hi > lo + 1 {
            assert(!is_space(s@[hi as int - 1]));
        } else {
            assert(hi == lo + 1);
            assert(!is_space(s@[lo as int]));
        }
        assert(forall|j: int|
            hi - lo <= j < t.len() ==> #[trigger] t[j] == s@[j + lo] && is_space(t[j]));
        assert(!is_space(t[hi - lo - 1]));
        lemma_trim_end_at(t, hi - lo);
        assert(t.take(hi - lo) =~= s@.subrange(lo as int, hi as int));
    }
    let mut r: Vec<u8> = Vec::new();
    let mut k: usize = lo;
    while k < hi
        invariant
            lo <= k <= hi <= n,
            n == s@.len(),
            r@ == s@.subrange(lo as int, k as int),
        decreases hi - k,
    {
        r.push(s[k]);
        proof {
            assert(s@.subrange(lo as int, k as int + 1) =~= s@.subrange(lo as int, k as int).push(
                s@[k as int],
            ));
        }
        k += 1;
    }
    r
}

} // verus!
