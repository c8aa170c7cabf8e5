//! The asset-price feed: rows populated by an external collaborator and
//! listed in ascending `asset_id` order, whatever order they arrived in.

use vstd::prelude::*;
use vstd::seq_lib::lemma_multiset_commutative;

verus! {

/// A current asset price, as the external price feed stored it.
#[derive(Debug)]
pub struct AssetPrice {
    pub id: i32,
    pub asset_id: String,
    pub price: String,
}

/// Mathematical image of a stored asset price.
#[verifier::ext_equal]
pub struct AssetPriceView {
    pub id: int,
    pub asset_id: Seq<char>,
    pub price: Seq<char>,
}

impl View for AssetPrice {
    type V = AssetPriceView;

    open spec fn view(&self) -> AssetPriceView {
        AssetPriceView { id: self.id as int, asset_id: self.asset_id@, price: self.price@ }
    }
}

impl Clone for AssetPrice {
    fn clone(&self) -> (res: Self)
        ensures
            res@ == self@,
    {
        AssetPrice {
            id: self.id,
            asset_id: self.asset_id.clone(),
            price: self.price.clone(),
        }
    }
}

pub open spec fn price_view(p: AssetPrice) -> AssetPriceView {
    p@
}

pub open spec fn prices_view(ps: Seq<AssetPrice>) -> Seq<AssetPriceView> {
    ps.map_values(|p: AssetPrice| price_view(p))
}

pub broadcast proof fn lemma_prices_view_len(ps: Seq<AssetPrice>)
    ensures
        #[trigger] prices_view(ps).len() == ps.len(),
{
}

pub broadcast proof fn lemma_prices_view_index(ps: Seq<AssetPrice>, k: int)
    requires
        0 <= k < ps.len(),
    ensures
        #[trigger] prices_view(ps)[k] == ps[k]@,
{
}

/// `a` comes no later than `b` in codepoint order.
pub open spec fn lex_le(a: Seq<char>, b: Seq<char>) -> bool
    decreases a.len(),
{
    if a.len() == 0 {
        true
    } else if b.len() == 0 {
        false
    } else if (a[0] as u32) < (b[0] as u32) {
        true
    } else if (a[0] as u32) > (b[0] as u32) {
        false
    } else {
        lex_le(a.skip(1), b.skip(1))
    }
}

pub proof fn lemma_lex_le_total(a: Seq<char>, b: Seq<char>)
    ensures
        lex_le(a, b) || lex_le(b, a),
    decreases a.len(),
{
    if a.len() > 0 && b.len() > 0 && a[0] as u32 == b[0] as u32 {
        lemma_lex_le_total(a.skip(1), b.skip(1));
    }
}

pub proof fn lemma_lex_le_trans(a: Seq<char>, b: Seq<char>, c: Seq<char>)
    requires
        lex_le(a, b),
        lex_le(b, c),
    ensures
        lex_le(a, c),
    decreases a.len(),
{
    if a.len() > 0 && b.len() > 0 && c.len() > 0 && a[0] as u32 == b[0] as u32 && b[0] as u32
        == c[0] as u32 {
        lemma_lex_le_trans(a.skip(1), b.skip(1), c.skip(1));
    }
}

/// Rows appear in ascending `asset_id` order.
pub open spec fn sorted_by_asset(s: Seq<AssetPriceView>) -> bool {
    forall|i: int, j: int|
        0 <= i < j < s.len() ==> lex_le((#[trigger] s[i]).asset_id, (#[trigger] s[j]).asset_id)
}

/// Where `x` lands in `s`: before the first row it does not come after.
pub open spec fn insert_pos(s: Seq<AssetPriceView>, x: AssetPriceView) -> int
    decreases s.len(),
{
    if s.len() == 0 {
        0
    } else if lex_le(x.asset_id, s[0].asset_id) {
        0
    } else {
        1 + insert_pos(s.skip(1), x)
    }
}

/// `s` with `x` slotted in at its place.
pub open spec fn sorted_insert(s: Seq<AssetPriceView>, x: AssetPriceView) -> Seq<AssetPriceView> {
    s.insert(insert_pos(s, x), x)
}

/// The rows of `s`, in ascending `asset_id` order.
pub open spec fn sort_rows(s: Seq<AssetPriceView>) -> Seq<AssetPriceView>
    decreases s.len(),
{
    if s.len() == 0 {
        Seq::empty()
    } else {
        sorted_insert(sort_rows(s.drop_last()), s.last())
    }
}

pub proof fn lemma_insert_pos_bounds(s: Seq<AssetPriceView>, x: AssetPriceView)
    ensures
        0 <= insert_pos(s, x) <= s.len(),
        forall|k: int| 0 <= k < insert_pos(s, x) ==> !lex_le(x.asset_id, (#[trigger] s[k]).asset_id),
        insert_pos(s, x) < s.len() ==> lex_le(x.asset_id, s[insert_pos(s, x)].asset_id),
    decreases s.len(),
{
    if s.len() > 0 && !lex_le(x.asset_id, s[0].asset_id) {
        lemma_insert_pos_bounds(s.skip(1), x);
        let p = insert_pos(s, x);
        assert forall|k: int| 0 <= k < p implies !lex_le(x.asset_id, (#[trigger] s[k]).asset_id) by {
            if k > 0 {
                assert(s.skip(1)[k - 1] == s[k]);
                assert(!lex_le(x.asset_id, s.skip(1)[k - 1].asset_id));
            }
        }
        if p < s.len() {
            assert(s.skip(1)[p - 1] == s[p]);
        }
    }
}

/// Slotting a row into a sorted sequence keeps it sorted.
pub proof fn lemma_sorted_insert_sorted(s: Seq<AssetPriceView>, x: AssetPriceView)
    requires
        sorted_by_asset(s),
    ensures
        sorted_by_asset(sorted_insert(s, x)),
{
    lemma_insert_pos_bounds(s, x);
    let p = insert_pos(s, x);
    let t = sorted_insert(s, x);
    s.insert_ensures(p, x);
    assert forall|i: int, j: int| 0 <= i < j < t.len() implies lex_le(
        (#[trigger] t[i]).asset_id,
        (#[trigger] t[j]).asset_id,
    ) by {
        if i < p && j < p {
            assert(t[i] == s[i] && t[j] == s[j]);
        } else if i < p && j == p {
            // s[i] comes before x: x does not come before s[i], so by totality
            assert(!lex_le(x.asset_id, s[i].asset_id));
            lemma_lex_le_total(x.asset_id, s[i].asset_id);
        } else if i < p && j > p {
            assert(t[i] == s[i] && t[j] == s[j - 1]);
            if i < j - 1 {
                assert(lex_le(s[i].asset_id, s[j - 1].asset_id));
            } else {
                // i == j - 1 == p - 1 is impossible since j > p means j - 1 >= p > i
                assert(lex_le(s[i].asset_id, s[j - 1].asset_id));
            }
        } else if i == p && j > p {
            assert(t[j] == s[j - 1]);
            assert(p <= j - 1 < s.len());
            if p < s.len() {
                if p == j - 1 {
                    assert(lex_le(x.asset_id, s[j - 1].asset_id));
                } else {
                    lemma_lex_le_trans(x.asset_id, s[p].asset_id, s[j - 1].asset_id);
                }
            }
        } else {
            assert(i > p);
            assert(t[i] == s[i - 1] && t[j] == s[j - 1]);
            assert(lex_le(s[i - 1].asset_id, s[j - 1].asset_id));
        }
    }
}

/// Slotting a row in adds exactly that row: the contents are preserved.
pub proof fn lemma_sorted_insert_multiset(s: Seq<AssetPriceView>, x: AssetPriceView)
    ensures
        sorted_insert(s, x).to_multiset() == s.to_multiset().insert(x),
{
    broadcast use vstd::seq_lib::to_multiset_insert;

    lemma_insert_pos_bounds(s, x);
}

/// Sorting yields a sorted sequence.
pub proof fn lemma_sort_rows_sorted(s: Seq<AssetPriceView>)
    ensures
        sorted_by_asset(sort_rows(s)),
    decreases s.len(),
{
    if s.len() > 0 {
        lemma_sort_rows_sorted(s.drop_last());
        lemma_sorted_insert_sorted(sort_rows(s.drop_last()), s.last());
    }
}

/// Sorting keeps exactly the rows that were there: no row appears or goes
/// missing, whatever order they were inserted in.
pub proof fn lemma_sort_rows_multiset(s: Seq<AssetPriceView>)
    ensures
        sort_rows(s).to_multiset() == s.to_multiset(),
    decreases s.len(),
{
    broadcast use vstd::seq_lib::to_multiset_build;

    if s.len() > 0 {
        lemma_sort_rows_multiset(s.drop_last());
        lemma_sorted_insert_multiset(sort_rows(s.drop_last()), s.last());
        assert(sort_rows(s) == sorted_insert(sort_rows(s.drop_last()), s.last()));
        assert(sort_rows(s).to_multiset() == sort_rows(s.drop_last()).to_multiset().insert(
            s.last(),
        ));
        assert(s.drop_last().push(s.last()) =~= s);
        assert(s.drop_last().push(s.last()).to_multiset() == s.drop_last().to_multiset().insert(
            s.last(),
        ));
        assert(sort_rows(s).to_multiset() == s.to_multiset());
    } else {
        assert(s =~= Seq::<AssetPriceView>::empty());
    }
}

/// `a` comes no later than `b` in codepoint order.
fn lex_le_exec(a: &str, b: &str) -> (r: bool)
    ensures
        r == lex_le(a@, b@),
{
    let an = a.unicode_len();
    let bn = b.unicode_len();
    let mut i: usize = 0;
    proof {
        assert(a@.skip(0) =~= a@);
        assert(b@.skip(0) =~= b@);
    }
    while i < an && i < bn
        invariant
            i <= an,
            i <= bn,
            an == a@.len(),
            bn == b@.len(),
            lex_le(a@, b@) == lex_le(a@.skip(i as int), b@.skip(i as int)),
        decreases an - i,
    {
        let ca = a.get_char(i) as u32;
        let cb = b.get_char(i) as u32;
        proof {
            assert(a@.skip(i as int)[0] == a@[i as int]);
            assert(b@.skip(i as int)[0] == b@[i as int]);
        }
        if ca < cb {
            return true;
        }
        if ca > cb {
            return false;
        }
        proof {
            assert(a@.skip(i as int).skip(1) =~= a@.skip(i as int + 1));
            assert(b@.skip(i as int).skip(1) =~= b@.skip(i as int + 1));
        }
        i = i + 1;
    }
    proof {
        if i == an {
            assert(a@.skip(i as int).len() == 0);
        } else {
            assert(b@.skip(i as int).len() == 0);
            assert(a@.skip(i as int).len() > 0);
        }
    }
    i == an
}

/// Slots `x` into the sorted `v` at its place.
fn insert_sorted(v: &mut Vec<AssetPrice>, x: AssetPrice)
    ensures
        prices_view(final(v)@) == sorted_insert(prices_view(old(v)@), x@),
{
    let ghost s = prices_view(v@);
    let mut p: usize = 0;
    while p < v.len() && !lex_le_exec(x.asset_id.as_str(), v[p].asset_id.as_str())
        invariant
            p <= v.len(),
            s == prices_view(v@),
            s.len() == v@.len(),
            forall|k: int| 0 <= k < p ==> !lex_le(x@.asset_id, (#[trigger] s[k]).asset_id),
        decreases v.len() - p,
    {
        proof {
            broadcast use lemma_prices_view_index;

        }
        p = p + 1;
    }
    proof {
        broadcast use lemma_prices_view_len, lemma_prices_view_index;

        lemma_insert_pos_bounds(s, x@);
        // the scan stopped exactly at the spec insertion point
        if (p as int) < s.len() {
            assert(lex_le(x@.asset_id, s[p as int].asset_id));
        }
        if insert_pos(s, x@) < p as int {
            assert(lex_le(x@.asset_id, s[insert_pos(s, x@)].asset_id));
            assert(false);
        }
        if insert_pos(s, x@) > p as int {
            assert(!lex_le(x@.asset_id, s[p as int].asset_id));
            assert(false);
        }
        assert(insert_pos(s, x@) == p as int);
    }
    v.insert(p, x);
    proof {
        broadcast use lemma_prices_view_len, lemma_prices_view_index;

        s.insert_ensures(p as int, x@);
        v@.insert_ensures(p as int, x);
        assert forall|k: int| 0 <= k < v@.len() implies prices_view(v@)[k] == s.insert(
            p as int,
            x@,
        )[k] by {}
        assert(prices_view(v@) =~= s.insert(p as int, x@));
    }
}

/// The asset-price table; this service only reads it, an external
/// collaborator fills it.
pub struct AssetPriceTable {
    rows: Vec<AssetPrice>,
}

impl View for AssetPriceTable {
    type V = Seq<AssetPriceView>;

    closed spec fn view(&self) -> Seq<AssetPriceView> {
        prices_view(self.rows@)
    }
}

impl AssetPriceTable {
    pub fn new() -> (res: AssetPriceTable)
        ensures
            res@.len() == 0,
    {
        let t = AssetPriceTable { rows: Vec::new() };
        proof {
            broadcast use lemma_prices_view_len;

        }
        t
    }

    /// Stores one more price row, as the external feed would.
    pub fn add_price(&mut self, p: AssetPrice)
        ensures
            final(self)@ == old(self)@.push(p@),
    {
        let ghost prev = self.rows@;
        self.rows.push(p);
        proof {
            broadcast use lemma_prices_view_len, lemma_prices_view_index;

            assert forall|k: int| 0 <= k < self.rows@.len() implies prices_view(self.rows@)[k]
                == prices_view(prev).push(p@)[k] by {
                if k < prev.len() {
                    assert(self.rows@[k] == prev[k]);
                }
            }
            assert(prices_view(self.rows@) =~= prices_view(prev).push(p@));
        }
    }

    /// Lists every price row, in ascending `asset_id` order regardless of
    /// the order the rows arrived in.
    pub fn fetch_asset_prices(&self) -> (res: Vec<AssetPrice>)
        ensures
            prices_view(res@) == sort_rows(self@),
            sorted_by_asset(prices_view(res@)),
            prices_view(res@).to_multiset() == self@.to_multiset(),
    {
        let mut out: Vec<AssetPrice> = Vec::new();
        let mut i: usize = 0;
        proof {
            broadcast use lemma_prices_view_len, lemma_prices_view_index;

            assert(prices_view(out@) =~= sort_rows(self@.take(0)));
        }
        while i < self.rows.len()
            invariant
                i <= self.rows.len(),
                prices_view(out@) == sort_rows(self@.take(i as int)),
            decreases self.rows.len() - i,
        {
            insert_sorted(&mut out, self.rows[i].clone());
            proof {
                broadcast use lemma_prices_view_len, lemma_prices_view_index;

                assert(self@.take(i as int + 1).drop_last() =~= self@.take(i as int));
                assert(self@.take(i as int + 1).last() == self@[i as int]);
                assert(self@[i as int] == self.rows@[i as int]@);
            }
            i = i + 1;
        }
        proof {
            broadcast use lemma_prices_view_len;

            assert(self@.take(self.rows@.len() as int) =~= self@);
            lemma_sort_rows_sorted(self@);
            lemma_sort_rows_multiset(self@);
        }
        out
    }
}

} // verus!
