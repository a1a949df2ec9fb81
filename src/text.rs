use vstd::prelude::*;
use vstd::string::StrSliceExecFns;

verus! {

/// Where `n` first occurs in `h` at or after position `i`.
pub open spec fn find_from(h: Seq<char>, n: Seq<char>, i: int) -> Option<int>
    decreases h.len() - i,
{
    if i < 0 || i + n.len() > h.len() {
        None
    } else if h.subrange(i, i + n.len()) == n {
        Some(i)
    } else if i >= h.len() {
        None
    } else {
        find_from(h, n, i + 1)
    }
}

/// `n` occurs somewhere in `h`.
pub open spec fn contains_seq(h: Seq<char>, n: Seq<char>) -> bool {
    find_from(h, n, 0) is Some
}

/// What follows the first occurrence of `n` in `h`; empty when `n` does
/// not occur.
pub open spec fn after_first(h: Seq<char>, n: Seq<char>) -> Seq<char> {
    match find_from(h, n, 0) {
        Some(i) => h.subrange(i + n.len(), h.len() as int),
        None => Seq::empty(),
    }
}

/// The characters of `s`.
pub fn chars_of(s: &str) -> (r: Vec<char>)
    ensures
        r@ == s@,
{
    let n = s.unicode_len();
    let mut r: Vec<char> = Vec::with_capacity(n);
    let mut i: usize = 0;
    while i < n
        invariant
            n == s@.len(),
            i <= n,
            r@ == s@.take(i as int),
        decreases n - i,
    {
        r.push(s.get_char(i));
        i += 1;
        assert(r@ =~= s@.take(i as int));
    }
    assert(s@.take(n as int) =~= s@);
    r
}

/// Whether `n` occurs in `h` at position `i`.
fn occurs_at(h: &Vec<char>, n: &Vec<char>, i: usize) -> (r: bool)
    requires
        i + n@.len() <= h@.len(),
    ensures
        r == (h@.subrange(i as int, i + n@.len()) == n@),
{
    let hl = h.len();
    let mut j: usize = 0;
    while j < n.len()
        invariant
            i + n@.len() <= h@.len(),
            hl == h@.len(),
            j <= n@.len(),
            forall|k: int| 0 <= k < j ==> h@[i + k] == n@[k],
        decreases n@.len() - j,
    {
        if h[i + j] != n[j] {
            assert(h@.subrange(i as int, i + n@.len())[j as int] != n@[j as int]);
            return false;
        }
        j += 1;
    }
    assert(h@.subrange(i as int, i + n@.len()) =~= n@);
    true
}

/// Where `n` first occurs in `h`.
pub fn find(h: &str, n: &str) -> (r: Option<usize>)
    ensures
        r is Some ==> find_from(h@, n@, 0) == Some(r->Some_0 as int),
        r is None ==> find_from(h@, n@, 0) is None,
{
    let hc = chars_of(h);
    let nc = chars_of(n);
    if nc.len() > hc.len() {
        return None;
    }
    let last = hc.len() - nc.len();
    let mut i: usize = 0;
    while i <= last
        invariant
            hc@ == h@,
            nc@ == n@,
            last == hc@.len() - nc@.len(),
            i <= last + 1,
            find_from(h@, n@, 0) == find_from(h@, n@, i as int),
        decreases last + 1 - i,
    {
        if occurs_at(&hc, &nc, i) {
            return Some(i);
        }
        if i == last {
            assert(find_from(h@, n@, i + 1) is None);
            return None;
        }
        i += 1;
    }
    None
}

/// Whether `n` occurs in `h`.
pub fn contains(h: &str, n: &str) -> (r: bool)
    ensures
        r == contains_seq(h@, n@),
{
    find(h, n).is_some()
}

/// What follows the first occurrence of `n` in `h`, or an empty string.
pub fn after_first_str(h: &str, n: &str) -> (r: String)
    ensures
        r@ == after_first(h@, n@),
{
    match find(h, n) {
        Some(i) => {
            proof {
                lemma_find_bounds(h@, n@, 0);
            }
            let len = h.unicode_len();
            let nl = n.unicode_len();
            h.substring_char(i + nl, len).to_owned()
        },
        None => {
            let r = String::new();
            assert(r@ =~= Seq::<char>::empty());
            r
        },
    }
}

pub proof fn lemma_find_bounds(h: Seq<char>, n: Seq<char>, i: int)
    ensures
        find_from(h, n, i) is Some ==> i <= find_from(h, n, i)->Some_0 && find_from(h, n, i)->Some_0
            + n.len() <= h.len(),
    decreases h.len() - i,
{
    if !(i < 0 || i + n.len() > h.len()) && h.subrange(i, i + n.len()) != n && i < h.len() {
        lemma_find_bounds(h, n, i + 1);
    }
}

} // verus!
