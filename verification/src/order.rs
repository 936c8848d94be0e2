//! Sorting without duplicates.

use vstd::prelude::*;

use crate::addr::IpAddr;
use crate::name::Proto;

verus! {

/// Values in a total order, given by a number that tells them apart.
pub trait Ranked: Sized {
    /// The place in the order.
    spec fn rank(self) -> int;

    /// No two values share a place.
    proof fn rank_tells_apart(a: Self, b: Self)
        requires
            a.rank() == b.rank(),
        ensures
            a == b,
    ;

    /// Whether `self` comes before `other`.
    fn before(&self, other: &Self) -> (r: bool)
        ensures
            r == (self.rank() < other.rank()),
    ;
}

/// IPv4 before IPv6, each by its number.
impl Ranked for IpAddr {
    open spec fn rank(self) -> int {
        match self {
            IpAddr::V4(v) => v as int,
            IpAddr::V6(v) => 0x1_0000_0000 + v,
        }
    }

    proof fn rank_tells_apart(a: Self, b: Self) {
    }

    fn before(&self, other: &Self) -> (r: bool) {
        match (self, other) {
            (IpAddr::V4(a), IpAddr::V4(b)) => *a < *b,
            (IpAddr::V4(_), IpAddr::V6(_)) => true,
            (IpAddr::V6(_), IpAddr::V4(_)) => false,
            (IpAddr::V6(a), IpAddr::V6(b)) => *a < *b,
        }
    }
}

/// By port, and TCP before UDP on the same port.
impl Ranked for (u16, Proto) {
    open spec fn rank(self) -> int {
        2 * self.0 + match self.1 {
            Proto::Tcp => 0int,
            Proto::Udp => 1int,
        }
    }

    proof fn rank_tells_apart(a: Self, b: Self) {
    }

    fn before(&self, other: &Self) -> (r: bool) {
        if self.0 != other.0 {
            self.0 < other.0
        } else {
            match (self.1, other.1) {
                (Proto::Tcp, Proto::Udp) => true,
                _ => false,
            }
        }
    }
}

/// Every value comes before every later one; so none occurs twice.
pub open spec fn ascending<T: Ranked>(s: Seq<T>) -> bool {
    forall|i: int, j: int| 0 <= i < j < s.len() ==> (#[trigger] s[i]).rank() < (#[trigger] s[j]).rank()
}

/// `r` is ascending and holds what `s` holds.
pub open spec fn sorted_set_of<T: Ranked>(r: Seq<T>, s: Seq<T>) -> bool {
    &&& ascending(r)
    &&& forall|x: T| #[trigger] r.contains(x) <==> s.contains(x)
}

/// A copy of a list.
pub fn copied<T: Copy>(v: &Vec<T>) -> (r: Vec<T>)
    ensures
        r@ == v@,
{
    let mut r: Vec<T> = Vec::new();
    for i in 0..v.len()
        invariant
            r@ == v@.take(i as int),
    {
        r.push(v[i]);
    }
    assert(v@.take(v@.len() as int) == v@);
    r
}

/// Puts `x` into its place in an ascending list, unless it is there.
fn insert_sorted<T: Ranked + Copy>(r: &mut Vec<T>, x: T)
    requires
        ascending(old(r)@),
    ensures
        ascending(final(r)@),
        forall|y: T| #[trigger] final(r)@.contains(y) <==> old(r)@.contains(y) || y == x,
{
    let mut k: usize = 0;
    while k < r.len() && r[k].before(&x)
        invariant
            k <= r@.len(),
            r@ == old(r)@,
            forall|j: int| 0 <= j < k ==> (#[trigger] r@[j]).rank() < x.rank(),
        decreases r@.len() - k,
    {
        k = k + 1;
    }
    let ghost s = r@;
    if k < r.len() && !x.before(&r[k]) {
        proof {
            T::rank_tells_apart(x, s[k as int]);
        }
        assert(s.contains(x));
        return ;
    }
    r.insert(k, x);
    assert(r@ == s.insert(k as int, x));
    assert forall|i: int, j: int| 0 <= i < j < r@.len() implies (#[trigger] r@[i]).rank() < (
    #[trigger] r@[j]).rank() by {
        if i < k {
            assert(r@[i] == s[i]);
        } else if i > k {
            assert(r@[i] == s[i - 1]);
        }
        if j < k {
            assert(r@[j] == s[j]);
        } else if j > k {
            assert(r@[j] == s[j - 1]);
            assert(s[k as int].rank() <= s[j - 1].rank());
        }
    }
    assert forall|y: T| #[trigger] r@.contains(y) <==> s.contains(y) || y == x by {
        if s.contains(y) {
            let i = choose|i: int| 0 <= i < s.len() && s[i] == y;
            assert(r@[if i < k { i } else { i + 1 }] == y);
        }
        assert(r@[k as int] == x);
        if r@.contains(y) && y != x {
            let i = choose|i: int| 0 <= i < r@.len() && r@[i] == y;
            assert(s[if i < k { i } else { i - 1 }] == y);
        }
    }
}

/// The values of `v` in order, each once.
pub fn sort_dedup<T: Ranked + Copy>(v: &Vec<T>) -> (r: Vec<T>)
    ensures
        sorted_set_of(r@, v@),
{
    let mut r: Vec<T> = Vec::new();
    for i in 0..v.len()
        invariant
            ascending(r@),
            forall|x: T| #[trigger] r@.contains(x) <==> v@.take(i as int).contains(x),
    {
        let ghost before = r@;
        insert_sorted(&mut r, v[i]);
        assert forall|x: T| #[trigger] r@.contains(x) <==> v@.take(i + 1).contains(x) by {
            let t = v@.take(i as int);
            let u = v@.take(i + 1);
            assert(u == t.push(v@[i as int]));
            assert(before.contains(x) <==> t.contains(x));
            if t.contains(x) {
                let k = choose|k: int| 0 <= k < t.len() && t[k] == x;
                assert(u[k] == x);
            }
            assert(u[i as int] == v@[i as int]);
        }
    }
    assert(v@.take(v@.len() as int) == v@);
    r
}

/// What is sorted without duplicates depends only on which values there are:
/// not on their order, nor on how often one occurs.
pub proof fn sorted_set_is_unique<T: Ranked>(a: Seq<T>, b: Seq<T>, s: Seq<T>, t: Seq<T>)
    requires
        sorted_set_of(a, s),
        sorted_set_of(b, t),
        forall|x: T| #[trigger] s.contains(x) <==> t.contains(x),
    ensures
        a == b,
    decreases a.len(),
{
    assert forall|x: T| #[trigger] a.contains(x) <==> b.contains(x) by {
        assert(s.contains(x) <==> t.contains(x));
    }
    if a.len() == 0 {
        if b.len() > 0 {
            assert(a.contains(b[0]));
        }
        assert(a =~= b);
    } else {
        let x = a.last();
        assert(a[a.len() - 1] == x);
        assert(a.contains(x));
        assert(b.contains(x));
        let j = choose|j: int| 0 <= j < b.len() && b[j] == x;
        let y = b.last();
        assert(b[b.len() - 1] == y);
        assert(b.contains(y));
        assert(a.contains(y));
        let i = choose|i: int| 0 <= i < a.len() && a[i] == y;
        assert(x == y);
        let a1 = a.drop_last();
        let b1 = b.drop_last();
        assert forall|z: T| #[trigger] a1.contains(z) <==> b1.contains(z) by {
            if a1.contains(z) {
                let k = choose|k: int| 0 <= k < a1.len() && a1[k] == z;
                assert(a[k] == z && z.rank() < x.rank());
                assert(a.contains(z));
                let m = choose|m: int| 0 <= m < b.len() && b[m] == z;
                assert(b1[m] == z);
            }
            if b1.contains(z) {
                let k = choose|k: int| 0 <= k < b1.len() && b1[k] == z;
                assert(b[k] == z && z.rank() < x.rank());
                assert(b.contains(z));
                assert(a.contains(z));
                let m = choose|m: int| 0 <= m < a.len() && a[m] == z;
                assert(a1[m] == z);
            }
        }
        sorted_set_is_unique(a1, b1, a1, b1);
        assert(a =~= a1.push(x));
        assert(b =~= b1.push(y));
    }
}

/// IPv4 addresses come before IPv6 addresses, and each family goes by the
/// number of the address.
pub proof fn addresses_go_by_family_and_number(a: u32, b: u32, x: u128, y: u128)
    ensures
        IpAddr::V4(a).rank() < IpAddr::V4(b).rank() <==> a < b,
        IpAddr::V6(x).rank() < IpAddr::V6(y).rank() <==> x < y,
        IpAddr::V4(a).rank() < IpAddr::V6(x).rank(),
{
}

/// Ports go by their number, and on the same port TCP comes before UDP.
pub proof fn ports_go_by_number(p: u16, q: u16, a: Proto, b: Proto)
    ensures
        p < q ==> (p, a).rank() < (q, b).rank(),
        (p, Proto::Tcp).rank() < (p, Proto::Udp).rank(),
{
}

/// What is sorted without duplicates holds the same values as the list, and
/// of two of them the earlier one comes first in the order.
pub proof fn sorted_set_is_sorted<T: Ranked>(r: Seq<T>, s: Seq<T>)
    requires
        sorted_set_of(r, s),
    ensures
        forall|x: T| r.contains(x) <==> #[trigger] s.contains(x),
        forall|i: int, j: int|
            0 <= i < j < r.len() ==> (#[trigger] r[i]).rank() < (#[trigger] r[j]).rank(),
{
}

/// A mapped list holds what the function makes of the items of the list, and
/// nothing else.
pub proof fn filter_map_holds<A, B>(s: Seq<A>, f: spec_fn(A) -> Option<B>, y: B)
    ensures
        s.filter_map(f).contains(y) <==> exists|k: int|
            0 <= k < s.len() && f(#[trigger] s[k]) == Some(y),
    decreases s.len(),
{
    if s.len() > 0 {
        let init = s.drop_last();
        let last = s.last();
        let a = init.filter_map(f);
        let b = s.filter_map(f);
        filter_map_holds(init, f, y);
        assert(s.take(s.len() as int) =~= s);
        assert(s.take(s.len() - 1) =~= init);
        s.lemma_filter_map_take_succ(f, s.len() - 1);
        assert(b == a + (match f(last) {
            Some(r) => seq![r],
            None => Seq::empty(),
        }));
        if a.contains(y) {
            let m = choose|m: int| 0 <= m < a.len() && a[m] == y;
            assert(b[m] == y);
            let k = choose|k: int| 0 <= k < init.len() && f(#[trigger] init[k]) == Some(y);
            assert(s[k] == init[k]);
        }
        if f(last) == Some(y) {
            assert(b[a.len() as int] == y);
            assert(s[s.len() - 1] == last);
        }
        if exists|k: int| 0 <= k < s.len() && f(#[trigger] s[k]) == Some(y) {
            let k = choose|k: int| 0 <= k < s.len() && f(#[trigger] s[k]) == Some(y);
            if k < init.len() {
                assert(init[k] == s[k]);
            }
        }
    }
}

} // verus!
