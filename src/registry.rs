//! The listings, keyed by custodian and asset, with an index by owner, by
//! custodian and by asset type that every change keeps in step.
use vstd::prelude::*;
use crate::text::is_substring;
use crate::types::{sale_key, sale_wf, Sale, SaleView};

verus! {

/// One listing's place in a secondary index: its group there (an owner, a
/// custodian or an asset type) and its key.
pub struct IndexEntry {
    pub group: String,
    pub nft_contract_id: String,
    pub token_id: String,
}

pub open spec fn entry_key(e: IndexEntry) -> (Seq<char>, Seq<char>) {
    (e.nft_contract_id@, e.token_id@)
}

/// The group of a listing in the index by owner.
pub open spec fn by_owner() -> spec_fn(Sale) -> Option<Seq<char>> {
    |s: Sale| Some(s.owner_id@)
}

/// The group of a listing in the index by custodian.
pub open spec fn by_contract() -> spec_fn(Sale) -> Option<Seq<char>> {
    |s: Sale| Some(s.nft_contract_id@)
}

/// The group of a listing in the index by asset type; a listing without a
/// type is not in that index.
pub open spec fn by_type() -> spec_fn(Sale) -> Option<Seq<char>> {
    |s: Sale|
        match s.token_type {
            Some(t) => Some(t@),
            None => None,
        }
}

/// The entry `e` stands for a listing of `sales` in its group.
pub open spec fn indexed_by(e: IndexEntry, sales: Seq<Sale>, g: spec_fn(Sale) -> Option<Seq<char>>) -> bool {
    exists|i: int|
        0 <= i < sales.len() && sale_key(#[trigger] sales[i]) == entry_key(e) && g(sales[i]) == Some(
            e.group@,
        )
}

/// The listing `s` has an entry in `idx` under its group.
pub open spec fn listed_in(s: Sale, idx: Seq<IndexEntry>, g: spec_fn(Sale) -> Option<Seq<char>>) -> bool {
    exists|j: int| 0 <= j < idx.len() && entry_key(#[trigger] idx[j]) == sale_key(s) && g(s) == Some(idx[j].group@)
}

pub open spec fn entry_keys_unique(idx: Seq<IndexEntry>) -> bool {
    forall|a: int, b: int|
        0 <= a < idx.len() && 0 <= b < idx.len() && a != b ==> entry_key(#[trigger] idx[a]) != entry_key(
            #[trigger] idx[b],
        )
}

/// `idx` holds exactly one entry for each listing that has a group under
/// `g`, under that group, and nothing else.
pub open spec fn index_consistent(idx: Seq<IndexEntry>, sales: Seq<Sale>, g: spec_fn(Sale) -> Option<Seq<char>>) -> bool {
    &&& forall|j: int| 0 <= j < idx.len() ==> #[trigger] indexed_by(idx[j], sales, g)
    &&& forall|i: int| 0 <= i < sales.len() && g(sales[i]) is Some ==> #[trigger] listed_in(sales[i], idx, g)
    &&& entry_keys_unique(idx)
}

pub open spec fn sale_keys_unique(sales: Seq<Sale>) -> bool {
    forall|a: int, b: int|
        0 <= a < sales.len() && 0 <= b < sales.len() && a != b ==> sale_key(#[trigger] sales[a]) != sale_key(
            #[trigger] sales[b],
        )
}

/// A listing fit to be held: one price and one bid per currency, and an
/// asset type, where given, that occurs in the asset's id.
pub open spec fn sale_admissible(s: Sale) -> bool {
    &&& sale_wf(s)
    &&& match s.token_type {
        Some(t) => is_substring(t@, s.token_id@),
        None => true,
    }
}

pub open spec fn has_sale(sales: Seq<Sale>, k: (Seq<char>, Seq<char>)) -> bool {
    exists|i: int| 0 <= i < sales.len() && sale_key(#[trigger] sales[i]) == k
}

pub open spec fn sale_pos(sales: Seq<Sale>, k: (Seq<char>, Seq<char>)) -> int {
    choose|i: int| 0 <= i < sales.len() && sale_key(#[trigger] sales[i]) == k
}

/// The listings by key.
pub open spec fn sales_map(sales: Seq<Sale>) -> Map<(Seq<char>, Seq<char>), SaleView> {
    Map::new(|k: (Seq<char>, Seq<char>)| has_sale(sales, k), |k: (Seq<char>, Seq<char>)| sales[sale_pos(sales, k)]@)
}

/// The number of entries of an index under `group`.
pub open spec fn group_count(idx: Seq<IndexEntry>, group: Seq<char>) -> nat
    decreases idx.len(),
{
    if idx.len() == 0 {
        0
    } else {
        group_count(idx.drop_last(), group) + (if idx.last().group@ == group {
            1nat
        } else {
            0nat
        })
    }
}

/// The index holds the key `k` under `group`.
pub open spec fn index_holds(idx: Seq<IndexEntry>, group: Seq<char>, k: (Seq<char>, Seq<char>)) -> bool {
    exists|j: int| 0 <= j < idx.len() && entry_key(#[trigger] idx[j]) == k && idx[j].group@ == group
}

/// Some entry of the index has the key `k`.
pub open spec fn index_has_key(idx: Seq<IndexEntry>, k: (Seq<char>, Seq<char>)) -> bool {
    exists|j: int| 0 <= j < idx.len() && entry_key(#[trigger] idx[j]) == k
}

pub struct SaleRegistry {
    pub sales: Vec<Sale>,
    pub by_owner_id: Vec<IndexEntry>,
    pub by_nft_contract_id: Vec<IndexEntry>,
    pub by_nft_token_type: Vec<IndexEntry>,
}

impl SaleRegistry {
    pub open spec fn wf(&self) -> bool {
        &&& sale_keys_unique(self.sales@)
        &&& forall|i: int| 0 <= i < self.sales@.len() ==> #[trigger] sale_admissible(self.sales@[i])
        &&& index_consistent(self.by_owner_id@, self.sales@, by_owner())
        &&& index_consistent(self.by_nft_contract_id@, self.sales@, by_contract())
        &&& index_consistent(self.by_nft_token_type@, self.sales@, by_type())
    }

    pub open spec fn view(&self) -> Map<(Seq<char>, Seq<char>), SaleView> {
        sales_map(self.sales@)
    }

    /// The number of listings that `owner` holds, as the owner index counts them.
    pub open spec fn owner_count(&self, owner: Seq<char>) -> nat {
        group_count(self.by_owner_id@, owner)
    }
}


pub proof fn lemma_sale_pos(sales: Seq<Sale>, i: int)
    requires
        sale_keys_unique(sales),
        0 <= i < sales.len(),
    ensures
        has_sale(sales, sale_key(sales[i])),
        sale_pos(sales, sale_key(sales[i])) == i,
        sales_map(sales).contains_key(sale_key(sales[i])),
        sales_map(sales)[sale_key(sales[i])] == sales[i]@,
{
    let k = sale_key(sales[i]);
    assert(has_sale(sales, k));
    let j = sale_pos(sales, k);
    assert(sale_key(sales[j]) == k);
}

proof fn lemma_sales_push(sales: Seq<Sale>, s: Sale)
    requires
        sale_keys_unique(sales),
        !has_sale(sales, sale_key(s)),
    ensures
        sale_keys_unique(sales.push(s)),
        sales_map(sales.push(s)) == sales_map(sales).insert(sale_key(s), s@),
{
    let t = sales.push(s);
    assert forall|a: int, b: int|
        0 <= a < t.len() && 0 <= b < t.len() && a != b implies sale_key(#[trigger] t[a]) != sale_key(
            #[trigger] t[b],
        ) by {
        if a < sales.len() {
            assert(t[a] == sales[a]);
        }
        if b < sales.len() {
            assert(t[b] == sales[b]);
        }
    }
    lemma_sale_pos(t, sales.len() as int);
    assert forall|k| #[trigger] has_sale(t, k) == (has_sale(sales, k) || k == sale_key(s)) by {
        if has_sale(sales, k) {
            let j = sale_pos(sales, k);
            assert(t[j] == sales[j]);
        }
        if has_sale(t, k) && k != sale_key(s) {
            let j = sale_pos(t, k);
            assert(t[j] == sales[j]);
        }
    }
    assert forall|k| k != sale_key(s) && has_sale(t, k) implies sales_map(t)[k] == sales_map(sales)[k] by {
        let j = sale_pos(t, k);
        assert(t[j] == sales[j]);
        lemma_sale_pos(t, j);
        lemma_sale_pos(sales, j);
    }
    assert(sales_map(t) =~= sales_map(sales).insert(sale_key(s), s@));
}

proof fn lemma_sales_remove(sales: Seq<Sale>, i: int)
    requires
        sale_keys_unique(sales),
        0 <= i < sales.len(),
    ensures
        sale_keys_unique(sales.remove(i)),
        sales_map(sales.remove(i)) == sales_map(sales).remove(sale_key(sales[i])),
{
    let t = sales.remove(i);
    let k0 = sale_key(sales[i]);
    assert forall|a: int, b: int|
        0 <= a < t.len() && 0 <= b < t.len() && a != b implies sale_key(#[trigger] t[a]) != sale_key(
            #[trigger] t[b],
        ) by {
        let a2 = if a < i { a } else { a + 1 };
        let b2 = if b < i { b } else { b + 1 };
        assert(t[a] == sales[a2] && t[b] == sales[b2]);
    }
    assert forall|k| #[trigger] has_sale(t, k) == (has_sale(sales, k) && k != k0) by {
        if has_sale(sales, k) && k != k0 {
            let j = sale_pos(sales, k);
            if j < i {
                assert(t[j] == sales[j]);
            } else {
                assert(j != i);
                assert(t[j - 1] == sales[j]);
            }
        }
        if has_sale(t, k) {
            let j = sale_pos(t, k);
            let j2 = if j < i { j } else { j + 1 };
            assert(t[j] == sales[j2]);
        }
    }
    assert forall|k| k != k0 && has_sale(t, k) implies sales_map(t)[k] == sales_map(sales)[k] by {
        let j = sale_pos(t, k);
        let j2 = if j < i { j } else { j + 1 };
        assert(t[j] == sales[j2]);
        lemma_sale_pos(t, j);
        lemma_sale_pos(sales, j2);
    }
    assert(sales_map(t) =~= sales_map(sales).remove(k0));
}

proof fn lemma_sales_update(sales: Seq<Sale>, i: int, s: Sale)
    requires
        sale_keys_unique(sales),
        0 <= i < sales.len(),
        sale_key(s) == sale_key(sales[i]),
    ensures
        sale_keys_unique(sales.update(i, s)),
        sales_map(sales.update(i, s)) == sales_map(sales).insert(sale_key(s), s@),
{
    let t = sales.update(i, s);
    assert(sale_keys_unique(t));
    lemma_sale_pos(t, i);
    assert forall|k| #[trigger] has_sale(t, k) == has_sale(sales, k) by {
        if has_sale(sales, k) {
            let j = sale_pos(sales, k);
            assert(sale_key(t[j]) == k);
        }
        if has_sale(t, k) {
            let j = sale_pos(t, k);
            assert(sale_key(sales[j]) == k);
        }
    }
    assert forall|k| k != sale_key(s) && has_sale(t, k) implies sales_map(t)[k] == sales_map(sales)[k] by {
        let j = sale_pos(t, k);
        lemma_sale_pos(t, j);
        lemma_sale_pos(sales, j);
    }
    assert(sales_map(t) =~= sales_map(sales).insert(sale_key(s), s@));
}

proof fn lemma_index_push(
    idx: Seq<IndexEntry>,
    sales: Seq<Sale>,
    g: spec_fn(Sale) -> Option<Seq<char>>,
    s: Sale,
    e: Option<IndexEntry>,
)
    requires
        index_consistent(idx, sales, g),
        !has_sale(sales, sale_key(s)),
        match e {
            Some(e) => entry_key(e) == sale_key(s) && g(s) == Some(e.group@),
            None => g(s) is None,
        },
    ensures
        index_consistent(
            match e {
                Some(e) => idx.push(e),
                None => idx,
            },
            sales.push(s),
            g,
        ),
{
    let t = sales.push(s);
    let idx2 = match e {
        Some(e) => idx.push(e),
        None => idx,
    };
    assert forall|j: int| 0 <= j < idx2.len() implies #[trigger] indexed_by(idx2[j], t, g) by {
        if j < idx.len() {
            assert(idx2[j] == idx[j]);
            assert(indexed_by(idx[j], sales, g));
            let i = choose|i: int|
                0 <= i < sales.len() && sale_key(#[trigger] sales[i]) == entry_key(idx[j]) && g(sales[i])
                    == Some(idx[j].group@);
            assert(t[i] == sales[i]);
        } else {
            assert(t[sales.len() as int] == s);
        }
    }
    assert forall|i: int| 0 <= i < t.len() && g(t[i]) is Some implies #[trigger] listed_in(t[i], idx2, g) by {
        if i < sales.len() {
            assert(t[i] == sales[i]);
            assert(listed_in(sales[i], idx, g));
            let j = choose|j: int|
                0 <= j < idx.len() && entry_key(#[trigger] idx[j]) == sale_key(sales[i]) && g(sales[i])
                    == Some(idx[j].group@);
            assert(idx2[j] == idx[j]);
        } else {
            assert(t[i] == s);
            assert(idx2[idx.len() as int] == e.unwrap());
        }
    }
    assert forall|a: int, b: int|
        0 <= a < idx2.len() && 0 <= b < idx2.len() && a != b implies entry_key(#[trigger] idx2[a])
        != entry_key(#[trigger] idx2[b]) by {
        if a < idx.len() && b < idx.len() {
            assert(idx2[a] == idx[a] && idx2[b] == idx[b]);
        } else if a < idx.len() {
            assert(idx2[a] == idx[a]);
            assert(indexed_by(idx[a], sales, g));
        } else {
            assert(idx2[b] == idx[b]);
            assert(indexed_by(idx[b], sales, g));
        }
    }
}

proof fn lemma_index_remove(
    idx: Seq<IndexEntry>,
    sales: Seq<Sale>,
    g: spec_fn(Sale) -> Option<Seq<char>>,
    i: int,
    pos: Option<usize>,
)
    requires
        index_consistent(idx, sales, g),
        sale_keys_unique(sales),
        0 <= i < sales.len(),
        match pos {
            Some(j) => j < idx.len() && entry_key(idx[j as int]) == sale_key(sales[i]),
            None => !index_has_key(idx, sale_key(sales[i])),
        },
    ensures
        index_consistent(
            match pos {
                Some(j) => idx.remove(j as int),
                None => idx,
            },
            sales.remove(i),
            g,
        ),
{
    let t = sales.remove(i);
    let idx2 = match pos {
        Some(j) => idx.remove(j as int),
        None => idx,
    };
    let k0 = sale_key(sales[i]);
    // where an entry of the new index stood before
    let old_pos = |a: int|
        match pos {
            Some(j) => if a < j {
                a
            } else {
                a + 1
            },
            None => a,
        };
    assert forall|a: int| 0 <= a < idx2.len() implies idx2[a] == idx[old_pos(a)] && entry_key(idx2[a])
        != k0 by {
        assert(idx2[a] == idx[old_pos(a)]);
        if let Some(j) = pos {
            assert(old_pos(a) != j);
        } else {
            if entry_key(idx[a]) == k0 {
                assert(index_has_key(idx, k0));
            }
        }
    }
    assert forall|a: int| 0 <= a < idx2.len() implies #[trigger] indexed_by(idx2[a], t, g) by {
        let e = idx2[a];
        assert(e == idx[old_pos(a)]);
        assert(indexed_by(idx[old_pos(a)], sales, g));
        let i0 = choose|i0: int|
            0 <= i0 < sales.len() && sale_key(#[trigger] sales[i0]) == entry_key(e) && g(sales[i0]) == Some(
                e.group@,
            );
        assert(i0 != i);
        if i0 < i {
            assert(t[i0] == sales[i0]);
        } else {
            assert(t[i0 - 1] == sales[i0]);
        }
    }
    assert forall|b: int| 0 <= b < t.len() && g(t[b]) is Some implies #[trigger] listed_in(t[b], idx2, g) by {
        let b2 = if b < i { b } else { b + 1 };
        assert(t[b] == sales[b2]);
        assert(b2 != i);
        assert(sale_key(sales[b2]) != k0);
        assert(listed_in(sales[b2], idx, g));
        let j0 = choose|j0: int|
            0 <= j0 < idx.len() && entry_key(#[trigger] idx[j0]) == sale_key(sales[b2]) && g(sales[b2])
                == Some(idx[j0].group@);
        match pos {
            Some(j) => {
                assert(j0 != j);
                if j0 < j {
                    assert(idx2[j0] == idx[j0]);
                } else {
                    assert(idx2[j0 - 1] == idx[j0]);
                }
            },
            None => {
                assert(idx2[j0] == idx[j0]);
            },
        }
    }
    assert forall|a: int, b: int|
        0 <= a < idx2.len() && 0 <= b < idx2.len() && a != b implies entry_key(#[trigger] idx2[a])
        != entry_key(#[trigger] idx2[b]) by {
        assert(idx2[a] == idx[old_pos(a)]);
        assert(idx2[b] == idx[old_pos(b)]);
    }
}

proof fn lemma_index_update(
    idx: Seq<IndexEntry>,
    sales: Seq<Sale>,
    g: spec_fn(Sale) -> Option<Seq<char>>,
    i: int,
    s: Sale,
)
    requires
        index_consistent(idx, sales, g),
        0 <= i < sales.len(),
        sale_key(s) == sale_key(sales[i]),
        g(s) == g(sales[i]),
    ensures
        index_consistent(idx, sales.update(i, s), g),
{
    let t = sales.update(i, s);
    assert forall|j: int| 0 <= j < idx.len() implies #[trigger] indexed_by(idx[j], t, g) by {
        assert(indexed_by(idx[j], sales, g));
        let i0 = choose|i0: int|
            0 <= i0 < sales.len() && sale_key(#[trigger] sales[i0]) == entry_key(idx[j]) && g(sales[i0])
                == Some(idx[j].group@);
        assert(sale_key(t[i0]) == sale_key(sales[i0]) && g(t[i0]) == g(sales[i0]));
    }
    assert forall|b: int| 0 <= b < t.len() && g(t[b]) is Some implies #[trigger] listed_in(t[b], idx, g) by {
        assert(listed_in(sales[b], idx, g));
    }
}


proof fn lemma_group_count_take(idx: Seq<IndexEntry>, group: Seq<char>, i: int)
    requires
        0 <= i < idx.len(),
    ensures
        group_count(idx.take(i + 1), group) == group_count(idx.take(i), group) + (if idx[i].group@
            == group {
            1nat
        } else {
            0nat
        }),
{
    assert(idx.take(i + 1).drop_last() =~= idx.take(i));
}

/// The number of entries of an index under `group`.
pub fn count_group(idx: &Vec<IndexEntry>, group: &String) -> (r: usize)
    ensures
        r == group_count(idx@, group@),
{
    let mut c: usize = 0;
    let mut i: usize = 0;
    while i < idx.len()
        invariant
            i <= idx@.len(),
            c == group_count(idx@.take(i as int), group@),
            c <= i,
        decreases idx@.len() - i,
    {
        proof {
            lemma_group_count_take(idx@, group@, i as int);
        }
        if idx[i].group == *group {
            c = c + 1;
        }
        i = i + 1;
    }
    assert(idx@.take(idx@.len() as int) =~= idx@);
    c
}

/// The position of the entry with the given key.
fn find_entry(idx: &Vec<IndexEntry>, nft_contract_id: &String, token_id: &String) -> (r: Option<usize>)
    ensures
        match r {
            Some(j) => j < idx@.len() && entry_key(idx@[j as int]) == (nft_contract_id@, token_id@),
            None => !index_has_key(idx@, (nft_contract_id@, token_id@)),
        },
{
    let mut j: usize = 0;
    while j < idx.len()
        invariant
            j <= idx@.len(),
            forall|a: int| 0 <= a < j ==> entry_key(#[trigger] idx@[a]) != (nft_contract_id@, token_id@),
        decreases idx@.len() - j,
    {
        if idx[j].nft_contract_id == *nft_contract_id && idx[j].token_id == *token_id {
            return Some(j);
        }
        j = j + 1;
    }
    None
}

/// Takes the entry with the given key out of an index, where there is one.
fn remove_entry(idx: &mut Vec<IndexEntry>, nft_contract_id: &String, token_id: &String) -> (r: Option<
    usize,
>)
    ensures
        match r {
            Some(j) => j < old(idx)@.len() && entry_key(old(idx)@[j as int]) == (
                nft_contract_id@,
                token_id@,
            ) && final(idx)@ == old(idx)@.remove(j as int),
            None => !index_has_key(old(idx)@, (nft_contract_id@, token_id@)) && final(idx)@ == old(idx)@,
        },
{
    let r = find_entry(idx, nft_contract_id, token_id);
    if let Some(j) = r {
        idx.remove(j);
    }
    r
}

impl SaleRegistry {
    pub fn new() -> (r: SaleRegistry)
        ensures
            r.wf(),
            r@ == Map::<(Seq<char>, Seq<char>), SaleView>::empty(),
    {
        let r = SaleRegistry {
            sales: Vec::new(),
            by_owner_id: Vec::new(),
            by_nft_contract_id: Vec::new(),
            by_nft_token_type: Vec::new(),
        };
        assert(r@ =~= Map::<(Seq<char>, Seq<char>), SaleView>::empty());
        r
    }

    /// The position of the listing with the given key.
    pub fn find(&self, nft_contract_id: &String, token_id: &String) -> (r: Option<usize>)
        requires
            self.wf(),
        ensures
            match r {
                Some(i) => i < self.sales@.len() && sale_key(self.sales@[i as int]) == (
                    nft_contract_id@,
                    token_id@,
                ) && self@.contains_key((nft_contract_id@, token_id@)) && self@[(
                    nft_contract_id@,
                    token_id@,
                )] == self.sales@[i as int]@,
                None => !self@.contains_key((nft_contract_id@, token_id@)),
            },
    {
        let mut i: usize = 0;
        while i < self.sales.len()
            invariant
                self.wf(),
                i <= self.sales@.len(),
                forall|a: int| 0 <= a < i ==> sale_key(#[trigger] self.sales@[a]) != (nft_contract_id@, token_id@),
            decreases self.sales@.len() - i,
        {
            if self.sales[i].nft_contract_id == *nft_contract_id && self.sales[i].token_id == *token_id {
                proof {
                    lemma_sale_pos(self.sales@, i as int);
                }
                return Some(i);
            }
            i = i + 1;
        }
        None
    }

    /// Adds a listing under a key that is not taken, with its index entries.
    pub fn insert(&mut self, sale: Sale)
        requires
            old(self).wf(),
            !old(self)@.contains_key(sale_key(sale)),
            sale_admissible(sale),
        ensures
            final(self).wf(),
            final(self)@ == old(self)@.insert(sale_key(sale), sale@),
            forall|o: Seq<char>| #[trigger] final(self).owner_count(o) == old(self).owner_count(o) + (if o == sale.owner_id@ {
                1nat
            } else {
                0nat
            }),
    {
        let owner_entry = IndexEntry {
            group: sale.owner_id.clone(),
            nft_contract_id: sale.nft_contract_id.clone(),
            token_id: sale.token_id.clone(),
        };
        let contract_entry = IndexEntry {
            group: sale.nft_contract_id.clone(),
            nft_contract_id: sale.nft_contract_id.clone(),
            token_id: sale.token_id.clone(),
        };
        let type_entry = match &sale.token_type {
            Some(t) => Some(
                IndexEntry {
                    group: t.clone(),
                    nft_contract_id: sale.nft_contract_id.clone(),
                    token_id: sale.token_id.clone(),
                },
            ),
            None => None,
        };
        proof {
            lemma_index_push(self.by_owner_id@, self.sales@, by_owner(), sale, Some(owner_entry));
            lemma_index_push(self.by_nft_contract_id@, self.sales@, by_contract(), sale, Some(contract_entry));
            lemma_index_push(self.by_nft_token_type@, self.sales@, by_type(), sale, type_entry);
            lemma_sales_push(self.sales@, sale);
            assert(self.by_owner_id@.push(owner_entry).drop_last() =~= self.by_owner_id@);
        }
        let ghost old_sales = self.sales@;
        self.by_owner_id.push(owner_entry);
        self.by_nft_contract_id.push(contract_entry);
        if let Some(e) = type_entry {
            self.by_nft_token_type.push(e);
        }
        self.sales.push(sale);
        assert forall|i: int| 0 <= i < self.sales@.len() implies #[trigger] sale_admissible(self.sales@[i]) by {
            if i < old_sales.len() {
                assert(self.sales@[i] == old_sales[i]);
            }
        }
    }

    /// Takes out the listing at position `i`, with its index entries.
    pub fn remove_at(&mut self, i: usize) -> (r: Sale)
        requires
            old(self).wf(),
            i < old(self).sales@.len(),
        ensures
            final(self).wf(),
            r == old(self).sales@[i as int],
            old(self)@.contains_key(sale_key(r)),
            old(self)@[sale_key(r)] == r@,
            final(self)@ == old(self)@.remove(sale_key(r)),
    {
        let ghost old_sales = self.sales@;
        let p1 = remove_entry(&mut self.by_owner_id, &self.sales[i].nft_contract_id, &self.sales[i].token_id);
        let p2 = remove_entry(&mut self.by_nft_contract_id, &self.sales[i].nft_contract_id, &self.sales[i].token_id);
        let p3 = remove_entry(&mut self.by_nft_token_type, &self.sales[i].nft_contract_id, &self.sales[i].token_id);
        proof {
            lemma_sale_pos(old_sales, i as int);
            lemma_index_remove(old(self).by_owner_id@, old_sales, by_owner(), i as int, p1);
            lemma_index_remove(old(self).by_nft_contract_id@, old_sales, by_contract(), i as int, p2);
            lemma_index_remove(old(self).by_nft_token_type@, old_sales, by_type(), i as int, p3);
            lemma_sales_remove(old_sales, i as int);
        }
        let r = self.sales.remove(i);
        assert forall|a: int| 0 <= a < self.sales@.len() implies #[trigger] sale_admissible(self.sales@[a]) by {
            if a < i {
                assert(self.sales@[a] == old_sales[a]);
            } else {
                assert(self.sales@[a] == old_sales[a + 1]);
            }
        }
        r
    }

    /// Puts `sale` in place of the listing at position `i`, which has the
    /// same key, owner and asset type.
    pub fn replace_at(&mut self, i: usize, sale: Sale)
        requires
            old(self).wf(),
            i < old(self).sales@.len(),
            sale_key(sale) == sale_key(old(self).sales@[i as int]),
            sale.owner_id@ == old(self).sales@[i as int].owner_id@,
            sale.token_type == old(self).sales@[i as int].token_type,
            sale_wf(sale),
        ensures
            final(self).wf(),
            final(self)@ == old(self)@.insert(sale_key(sale), sale@),
            final(self).by_owner_id == old(self).by_owner_id,
    {
        proof {
            let ghost old_sale = self.sales@[i as int];
            assert(sale_admissible(old_sale));
            assert((by_owner())(sale) == (by_owner())(old_sale));
            assert((by_type())(sale) == (by_type())(old_sale));
            lemma_index_update(self.by_owner_id@, self.sales@, by_owner(), i as int, sale);
            lemma_index_update(self.by_nft_contract_id@, self.sales@, by_contract(), i as int, sale);
            lemma_index_update(self.by_nft_token_type@, self.sales@, by_type(), i as int, sale);
            lemma_sales_update(self.sales@, i as int, sale);
        }
        let ghost old_sales = self.sales@;
        self.sales.set(i, sale);
        assert forall|a: int| 0 <= a < self.sales@.len() implies #[trigger] sale_admissible(self.sales@[a]) by {
            if a != i {
                assert(self.sales@[a] == old_sales[a]);
            }
        }
    }
}

} // verus!
