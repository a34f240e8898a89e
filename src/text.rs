use vstd::prelude::*;

verus! {

/// The first `j < k` for which `p` holds.
pub open spec fn first_true(p: spec_fn(int) -> bool, k: int) -> Option<int>
    decreases k,
{
    if k <= 0 {
        None
    } else {
        match first_true(p, k - 1) {
            Some(j) => Some(j),
            None => if p(k - 1) {
                Some(k - 1)
            } else {
                None
            },
        }
    }
}

pub proof fn lemma_first_true(p: spec_fn(int) -> bool, k: int)
    requires
        k >= 0,
    ensures
        first_true(p, k) matches Some(j) ==> 0 <= j < k && p(j) && forall|i: int|
            0 <= i < j ==> !#[trigger] p(i),
        first_true(p, k) is None ==> forall|i: int| 0 <= i < k ==> !#[trigger] p(i),
    decreases k,
{
    if k > 0 {
        lemma_first_true(p, k - 1);
    }
}

/// `first_true` is the unique first witness.
pub proof fn lemma_first_true_is(p: spec_fn(int) -> bool, k: int, j: int)
    requires
        0 <= j < k,
        p(j),
        forall|i: int| 0 <= i < j ==> !#[trigger] p(i),
    ensures
        first_true(p, k) == Some(j),
    decreases k,
{
    if k - 1 > j {
        lemma_first_true_is(p, k - 1, j);
    } else {
        lemma_first_true(p, k - 1);
    }
}

pub proof fn lemma_first_true_none(p: spec_fn(int) -> bool, k: int)
    requires
        forall|i: int| 0 <= i < k ==> !#[trigger] p(i),
    ensures
        first_true(p, k) is None,
    decreases k,
{
    if k > 0 {
        lemma_first_true_none(p, k - 1);
    }
}

/// Whether `needle` occurs in `hay` as a contiguous run.
pub open spec fn seq_contains(hay: Seq<char>, needle: Seq<char>) -> bool {
    exists|i: int|
        0 <= i && i + needle.len() <= hay.len() && #[trigger] hay.subrange(i, i + needle.len())
            == needle
}

/// Whether any of `set` equals `s`.
pub open spec fn has_string(set: Seq<String>, s: Seq<char>) -> bool {
    exists|k: int| 0 <= k < set.len() && #[trigger] set[k]@ == s
}

/// Whether any of `hay` contains any of `needles`.
pub open spec fn any_mentions(hay: Seq<String>, needles: Seq<String>) -> bool {
    exists|i: int, k: int|
        0 <= i < hay.len() && 0 <= k < needles.len() && seq_contains(
            #[trigger] hay[i]@,
            #[trigger] needles[k]@,
        )
}

/// Drops the characters before the first `'<'` (all of them if none) and
/// after the last `'>'` that remains.
pub open spec fn trim_id(s: Seq<char>) -> Seq<char> {
    cut_after(skip_before(s, '<'), '>')
}

pub open spec fn skip_before(s: Seq<char>, c: char) -> Seq<char>
    decreases s.len(),
{
    if s.len() == 0 || s[0] == c {
        s
    } else {
        skip_before(s.drop_first(), c)
    }
}

pub open spec fn cut_after(s: Seq<char>, c: char) -> Seq<char>
    decreases s.len(),
{
    if s.len() == 0 || s.last() == c {
        s
    } else {
        cut_after(s.drop_last(), c)
    }
}

/// Relies on `str::chars`, collected in order.
#[verifier::external_body]
fn chars_of(s: &str) -> (r: Vec<char>)
    ensures
        r@ == s@,
{
    s.chars().collect()
}

/// Relies on collecting characters into a `String`, in order.
#[verifier::external_body]
fn string_of(v: &[char]) -> (r: String)
    ensures
        r@ == v@,
{
    v.iter().collect()
}

/// Whether `needle` occurs in `hay`.
pub fn contains(hay: &str, needle: &str) -> (r: bool)
    ensures
        r == seq_contains(hay@, needle@),
{
    let h = chars_of(hay);
    let n = chars_of(needle);
    if n.len() > h.len() {
        return false;
    }
    let mut i: usize = 0;
    while i <= h.len() - n.len()
        invariant
            h@ == hay@,
            n@ == needle@,
            n.len() <= h.len(),
            i <= h.len() - n.len() + 1,
            forall|j: int| 0 <= j < i ==> #[trigger] h@.subrange(j, j + n@.len()) != n@,
        decreases h.len() - i,
    {
        let mut k: usize = 0;
        let mut same = true;
        while k < n.len()
            invariant
                h@ == hay@,
                n@ == needle@,
                i + n.len() <= h.len(),
                k <= n.len(),
                same == forall|m: int| 0 <= m < k ==> h@[i + m] == n@[m],
            decreases n.len() - k,
        {
            if h[i + k] != n[k] {
                same = false;
            }
            k = k + 1;
        }
        if same {
            assert(h@.subrange(i as int, i + n@.len()) =~= n@);
            return true;
        }
        assert(exists|m: int| 0 <= m < n.len() && h@[i + m] != n@[m]);
        let ghost m = choose|m: int| 0 <= m < n.len() && h@[i + m] != n@[m];
        assert(h@.subrange(i as int, i + n@.len())[m] != n@[m]);
        i = i + 1;
    }
    false
}

/// Whether any string of `set` equals `s`.
pub fn contains_string(set: &Vec<String>, s: &String) -> (r: bool)
    ensures
        r == has_string(set@, s@),
{
    let mut k: usize = 0;
    while k < set.len()
        invariant
            k <= set.len(),
            forall|j: int| 0 <= j < k ==> #[trigger] set@[j]@ != s@,
        decreases set.len() - k,
    {
        if set[k] == *s {
            return true;
        }
        k = k + 1;
    }
    false
}

/// Whether any string of `hay` contains any string of `needles`.
pub fn mentions_any(hay: &Vec<String>, needles: &Vec<String>) -> (r: bool)
    ensures
        r == any_mentions(hay@, needles@),
{
    let mut i: usize = 0;
    while i < hay.len()
        invariant
            i <= hay.len(),
            forall|a: int, b: int|
                0 <= a < i && 0 <= b < needles.len() ==> !seq_contains(
                    #[trigger] hay@[a]@,
                    #[trigger] needles@[b]@,
                ),
        decreases hay.len() - i,
    {
        let mut k: usize = 0;
        while k < needles.len()
            invariant
                i < hay.len(),
                k <= needles.len(),
                forall|a: int, b: int|
                    0 <= a < i && 0 <= b < needles.len() ==> !seq_contains(
                        #[trigger] hay@[a]@,
                        #[trigger] needles@[b]@,
                    ),
                forall|b: int| 0 <= b < k ==> !seq_contains(hay@[i as int]@, #[trigger] needles@[b]@),
            decreases needles.len() - k,
        {
            if contains(hay[i].as_str(), needles[k].as_str()) {
                return true;
            }
            k = k + 1;
        }
        i = i + 1;
    }
    false
}

/// The identifier between angle brackets, as `trim_id` describes it.
pub fn normalize_id(s: &str) -> (r: String)
    ensures
        r@ == trim_id(s@),
{
    let v = chars_of(s);
    let mut a: usize = 0;
    assert(v@.subrange(0, v@.len() as int) =~= s@);
    while a < v.len() && v[a] != '<'
        invariant
            v@ == s@,
            a <= v.len(),
            skip_before(v@.subrange(a as int, v@.len() as int), '<') == skip_before(s@, '<'),
        decreases v.len() - a,
    {
        assert(v@.subrange(a as int, v@.len() as int).drop_first() =~= v@.subrange(
            a + 1,
            v@.len() as int,
        ));
        a = a + 1;
    }
    let mut b: usize = v.len();
    assert(skip_before(v@.subrange(a as int, v@.len() as int), '<') == v@.subrange(
        a as int,
        v@.len() as int,
    ));
    while b > a && v[b - 1] != '>'
        invariant
            v@ == s@,
            a <= b <= v.len(),
            cut_after(v@.subrange(a as int, b as int), '>') == trim_id(s@),
        decreases b,
    {
        assert(v@.subrange(a as int, b as int).drop_last() =~= v@.subrange(a as int, b - 1));
        b = b - 1;
    }
    string_of(&v.as_slice()[a..b])
}

} // verus!
