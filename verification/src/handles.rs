//! Handles to assets, and the tables that hand them out.

use std::collections::hash_map::Entry;
use std::collections::HashMap;

use vstd::prelude::*;

use crate::text::{
    same_text, text_before, text_lt, text_lt_is_total, text_lt_is_transitive, views,
};

verus! {

/// The index of a handle that names nothing.
pub const INVALID_INDEX: u32 = u32::MAX;

/// Names a texture.
#[derive(Debug, Clone, Copy, PartialEq, Eq, Structural, Hash)]
pub struct TextureHandle {
    pub index: u32,
}

impl TextureHandle {
    pub open spec fn valid(&self) -> bool {
        self.index != INVALID_INDEX
    }

    pub fn is_valid(&self) -> (r: bool)
        ensures
            r == self.valid(),
    {
        self.index != INVALID_INDEX
    }

    /// The handle that names nothing.
    pub fn make_invalid() -> (r: TextureHandle)
        ensures
            !r.valid(),
            r.index == INVALID_INDEX,
    {
        TextureHandle { index: INVALID_INDEX }
    }
}

/// Names a shader.
#[derive(Debug, Clone, Copy, PartialEq, Eq, Structural, Hash)]
pub struct ShaderHandle {
    pub index: u32,
}

impl ShaderHandle {
    pub open spec fn valid(&self) -> bool {
        self.index != INVALID_INDEX
    }

    pub fn is_valid(&self) -> (r: bool)
        ensures
            r == self.valid(),
    {
        self.index != INVALID_INDEX
    }

    /// The handle that names nothing.
    pub fn make_invalid() -> (r: ShaderHandle)
        ensures
            !r.valid(),
            r.index == INVALID_INDEX,
    {
        ShaderHandle { index: INVALID_INDEX }
    }
}

/// Names a file of bytes.
#[derive(Debug, Clone, Copy, PartialEq, Eq, Structural, Hash)]
pub struct ByteFileHandle {
    pub index: u32,
}

impl ByteFileHandle {
    pub open spec fn valid(&self) -> bool {
        self.index != INVALID_INDEX
    }

    pub fn is_valid(&self) -> (r: bool)
        ensures
            r == self.valid(),
    {
        self.index != INVALID_INDEX
    }

    /// The handle that names nothing.
    pub fn make_invalid() -> (r: ByteFileHandle)
        ensures
            !r.valid(),
            r.index == INVALID_INDEX,
    {
        ByteFileHandle { index: INVALID_INDEX }
    }
}

/// Names a model.
#[derive(Debug, Clone, Copy, PartialEq, Eq, Structural, Hash)]
pub struct ModelHandle {
    pub index: u32,
}

impl ModelHandle {
    pub open spec fn valid(&self) -> bool {
        self.index != INVALID_INDEX
    }

    pub fn is_valid(&self) -> (r: bool)
        ensures
            r == self.valid(),
    {
        self.index != INVALID_INDEX
    }

    /// The handle that names nothing.
    pub fn make_invalid() -> (r: ModelHandle)
        ensures
            !r.valid(),
            r.index == INVALID_INDEX,
    {
        ModelHandle { index: INVALID_INDEX }
    }
}

/// Names a material.
#[derive(Debug, Clone, Copy, PartialEq, Eq, Structural, Hash)]
pub struct MaterialHandle {
    pub index: u32,
}

impl MaterialHandle {
    pub open spec fn valid(&self) -> bool {
        self.index != INVALID_INDEX
    }

    pub fn is_valid(&self) -> (r: bool)
        ensures
            r == self.valid(),
    {
        self.index != INVALID_INDEX
    }

    /// The handle that names nothing.
    pub fn make_invalid() -> (r: MaterialHandle)
        ensures
            !r.valid(),
            r.index == INVALID_INDEX,
    {
        MaterialHandle { index: INVALID_INDEX }
    }
}

/// Names a collision shape.
#[derive(Debug, Clone, Copy, PartialEq, Eq, Structural, Hash)]
pub struct CollisionHandle {
    pub index: u32,
}

impl CollisionHandle {
    pub open spec fn valid(&self) -> bool {
        self.index != INVALID_INDEX
    }

    pub fn is_valid(&self) -> (r: bool)
        ensures
            r == self.valid(),
    {
        self.index != INVALID_INDEX
    }

    /// The handle that names nothing.
    pub fn make_invalid() -> (r: CollisionHandle)
        ensures
            !r.valid(),
            r.index == INVALID_INDEX,
    {
        CollisionHandle { index: INVALID_INDEX }
    }
}

/// A name with what it stands for.
pub struct Named<V> {
    pub name: String,
    pub value: V,
}

/// What a table of assets holds.
#[verifier::ext_equal]
#[verifier::reject_recursive_types(A)]
pub struct MappingsModel<A> {
    pub names: Map<Seq<char>, u32>,
    pub assets: Map<u32, A>,
    /// The index to hand out next.
    pub next: u32,
}

/// The index that is handed out where `next` is due: `u32::MAX` names nothing, so
/// counting starts over at zero there.
pub open spec fn due_index(next: u32) -> u32 {
    if next == INVALID_INDEX {
        0
    } else {
        next
    }
}

impl<A> MappingsModel<A> {
    pub open spec fn empty() -> Self {
        MappingsModel { names: Map::empty(), assets: Map::empty(), next: INVALID_INDEX }
    }

    /// The table after an asset was stored under a new index.
    pub open spec fn with_asset(self, asset: A) -> Self {
        MappingsModel {
            assets: self.assets.insert(due_index(self.next), asset),
            next: (due_index(self.next) + 1) as u32,
            ..self
        }
    }

    /// The table after `name` was made to stand for `index`.
    pub open spec fn with_name(self, name: Seq<char>, index: u32) -> Self {
        MappingsModel { names: self.names.insert(name, index), ..self }
    }

    /// No asset is stored at an index that is still to be handed out.
    pub open spec fn fresh_ahead(self) -> bool {
        forall|i: u32| #[trigger] self.assets.contains_key(i) ==> self.next != INVALID_INDEX && i < self.next
    }
}

/// A handed out index is valid; the asset can be read back under it; and every
/// other index goes on naming what it named.
pub proof fn stored_assets_read_back<A>(m: MappingsModel<A>, asset: A, other: u32)
    ensures
        due_index(m.next) != INVALID_INDEX,
        m.with_asset(asset).assets[due_index(m.next)] == asset,
        m.with_asset(asset).assets.contains_key(due_index(m.next)),
        other != due_index(m.next) ==> m.with_asset(asset).assets.contains_key(other)
            == m.assets.contains_key(other) && m.with_asset(asset).assets[other] == m.assets[other],
        m.with_asset(asset).names == m.names,
{
}

/// Until all indices were handed out once, a handed out index was not in use, and
/// that stays so.
pub proof fn handed_out_indices_are_fresh<A>(m: MappingsModel<A>, asset: A)
    requires
        m.fresh_ahead(),
    ensures
        !m.assets.contains_key(due_index(m.next)),
        m.next < INVALID_INDEX - 1 || m.next == INVALID_INDEX ==> m.with_asset(
            asset,
        ).fresh_ahead(),
{
}

/// The table that a list of names makes; each name occurs once.
pub open spec fn names_of<V>(list: Seq<Named<V>>) -> Map<Seq<char>, V> {
    Map::new(
        |n: Seq<char>| exists|i: int| 0 <= i < list.len() && (#[trigger] list[i]).name@ == n,
        |n: Seq<char>|
            list[choose|i: int| 0 <= i < list.len() && (#[trigger] list[i]).name@ == n].value,
    )
}

pub open spec fn names_distinct<V>(list: Seq<Named<V>>) -> bool {
    forall|i: int, j: int|
        0 <= i < j < list.len() ==> (#[trigger] list[i]).name@ != (#[trigger] list[j]).name@
}

proof fn lemma_names_of<V>(list: Seq<Named<V>>, i: int)
    requires
        names_distinct(list),
        0 <= i < list.len(),
    ensures
        names_of(list).contains_key(list[i].name@),
        names_of(list)[list[i].name@] == list[i].value,
{
    let n = list[i].name@;
    let c = choose|i: int| 0 <= i < list.len() && (#[trigger] list[i]).name@ == n;
    assert(list[c].name@ == n);
    assert(c == i);
}

proof fn lemma_names_push<V>(list: Seq<Named<V>>, entry: Named<V>)
    requires
        names_distinct(list),
        !names_of(list).contains_key(entry.name@),
    ensures
        names_distinct(list.push(entry)),
        names_of(list.push(entry)) == names_of(list).insert(entry.name@, entry.value),
{
    let more = list.push(entry);
    assert forall|i: int, j: int| 0 <= i < j < more.len() implies (#[trigger] more[i]).name@ != (
    #[trigger] more[j]).name@ by {
        assert(more[i] == list[i]);
        if j == list.len() {
            assert(names_of(list).contains_key(list[i].name@));
        }
    }
    let right = names_of(list).insert(entry.name@, entry.value);
    assert forall|n: Seq<char>|
        #![trigger names_of(more).dom().contains(n)]
        #![trigger right.dom().contains(n)]
        names_of(more).dom().contains(n) == right.dom().contains(n) && (right.dom().contains(n)
            ==> names_of(more)[n] == right[n]) by {
        if names_of(list).contains_key(n) {
            let i = choose|i: int| 0 <= i < list.len() && (#[trigger] list[i]).name@ == n;
            lemma_names_of(list, i);
            assert(more[i] == list[i]);
            lemma_names_of(more, i);
        } else if n == entry.name@ {
            assert(more[list.len() as int] == entry);
            lemma_names_of(more, list.len() as int);
        } else if names_of(more).contains_key(n) {
            let i = choose|i: int| 0 <= i < more.len() && (#[trigger] more[i]).name@ == n;
            assert(more[i] == list[i]);
        }
    }
    assert(names_of(more).dom() =~= right.dom());
    assert(names_of(more) =~= right);
}

proof fn lemma_names_update<V>(list: Seq<Named<V>>, at: int, entry: Named<V>)
    requires
        names_distinct(list),
        0 <= at < list.len(),
        list[at].name@ == entry.name@,
    ensures
        names_distinct(list.update(at, entry)),
        names_of(list.update(at, entry)) == names_of(list).insert(entry.name@, entry.value),
{
    let more = list.update(at, entry);
    assert forall|i: int, j: int| 0 <= i < j < more.len() implies (#[trigger] more[i]).name@ != (
    #[trigger] more[j]).name@ by {
        assert(list[i].name@ != list[j].name@);
    }
    let right = names_of(list).insert(entry.name@, entry.value);
    assert forall|n: Seq<char>|
        #![trigger names_of(more).dom().contains(n)]
        #![trigger right.dom().contains(n)]
        names_of(more).dom().contains(n) == right.dom().contains(n) && (right.dom().contains(n)
            ==> names_of(more)[n] == right[n]) by {
        lemma_names_of(more, at);
        if names_of(list).contains_key(n) && n != entry.name@ {
            let i = choose|i: int| 0 <= i < list.len() && (#[trigger] list[i]).name@ == n;
            lemma_names_of(list, i);
            assert(more[i] == list[i]);
            lemma_names_of(more, i);
        } else if names_of(more).contains_key(n) && n != entry.name@ {
            let i = choose|i: int| 0 <= i < more.len() && (#[trigger] more[i]).name@ == n;
            assert(more[i] == list[i]);
        }
    }
    assert(names_of(more).dom() =~= right.dom());
    assert(names_of(more) =~= right);
}

/// A list of names in strictly ascending order that holds exactly `names`.
pub open spec fn lists_names<V>(list: Seq<Named<V>>, names: Map<Seq<char>, V>) -> bool {
    &&& forall|i: int, j: int|
        0 <= i < j < list.len() ==> text_lt((#[trigger] list[i]).name@, (#[trigger] list[j]).name@)
    &&& forall|i: int|
        0 <= i < list.len() ==> names.contains_key((#[trigger] list[i]).name@)
            && names[list[i].name@] == list[i].value
    &&& forall|n: Seq<char>| #[trigger]
        names.contains_key(n) ==> exists|i: int|
            0 <= i < list.len() && (#[trigger] list[i]).name@ == n
}

/// Names and what they stand for. A list holds them, since the names are also walked
/// and sorted.
#[verifier::reject_recursive_types(V)]
pub struct NameTable<V> {
    entries: Vec<Named<V>>,
}

impl<V> View for NameTable<V> {
    type V = Map<Seq<char>, V>;

    closed spec fn view(&self) -> Map<Seq<char>, V> {
        names_of(self.entries@)
    }
}

impl<V> NameTable<V> {
    /// Each name occurs once in the list.
    #[verifier::type_invariant]
    spec fn inv(&self) -> bool {
        names_distinct(self.entries@)
    }

    pub fn new() -> (r: Self)
        ensures
            r@ == Map::<Seq<char>, V>::empty(),
    {
        let r = NameTable { entries: Vec::new() };
        assert(r@ =~= Map::<Seq<char>, V>::empty());
        r
    }

    fn position(&self, name: &str) -> (r: Option<usize>)
        ensures
            match r {
                Some(i) => i < self.entries@.len() && self.entries@[i as int].name@ == name@,
                None => !self@.contains_key(name@),
            },
    {
        let mut i: usize = 0;
        while i < self.entries.len()
            invariant
                i <= self.entries.len(),
                forall|j: int| 0 <= j < i ==> (#[trigger] self.entries@[j]).name@ != name@,
            decreases self.entries.len() - i,
        {
            if same_text(self.entries[i].name.as_str(), name) {
                return Some(i);
            }
            i += 1;
        }
        None
    }

    /// What `name` stands for.
    pub fn find(&self, name: &str) -> (r: Option<&V>)
        ensures
            match r {
                Some(v) => self@.contains_key(name@) && self@[name@] == *v,
                None => !self@.contains_key(name@),
            },
    {
        proof {
            use_type_invariant(self);
        }
        match self.position(name) {
            Some(i) => {
                proof {
                    lemma_names_of(self.entries@, i as int);
                }
                Some(&self.entries[i].value)
            },
            None => None,
        }
    }

    /// Makes `name` stand for `value`.
    pub fn set(&mut self, name: &str, value: V)
        ensures
            final(self)@ == old(self)@.insert(name@, value),
    {
        proof {
            use_type_invariant(&*self);
        }
        let entry = Named { name: name.to_owned(), value };
        let found = self.position(name);
        let mut entries: Vec<Named<V>> = Vec::new();
        std::mem::swap(&mut entries, &mut self.entries);
        match found {
            Some(i) => {
                proof {
                    lemma_names_update(entries@, i as int, entry);
                }
                entries[i] = entry;
            },
            None => {
                proof {
                    lemma_names_push(entries@, entry);
                }
                entries.push(entry);
            },
        }
        self.entries = entries;
    }

    /// Every name, each once, in no particular order.
    pub fn names(&self) -> (r: Vec<String>)
        ensures
            forall|n: Seq<char>| #[trigger] self@.contains_key(n) <==> views(r@).contains(n),
            views(r@).no_duplicates(),
    {
        proof {
            use_type_invariant(self);
        }
        let mut out: Vec<String> = Vec::new();
        let mut i: usize = 0;
        let ghost list = self.entries@;
        while i < self.entries.len()
            invariant
                i <= self.entries.len(),
                list == self.entries@,
                out@.len() == i,
                forall|k: int| 0 <= k < i ==> (#[trigger] out@[k])@ == list[k].name@,
            decreases self.entries.len() - i,
        {
            out.push(self.entries[i].name.clone());
            i += 1;
        }
        proof {
            assert forall|n: Seq<char>| #[trigger] self@.contains_key(n) <==> views(
                out@,
            ).contains(n) by {
                if self@.contains_key(n) {
                    let k = choose|k: int| 0 <= k < list.len() && (#[trigger] list[k]).name@ == n;
                    assert(views(out@)[k] == n);
                }
                if views(out@).contains(n) {
                    let k = choose|k: int| 0 <= k < views(out@).len() && views(out@)[k] == n;
                    assert(list[k].name@ == n);
                }
            }
            assert forall|i: int, j: int|
                0 <= i < views(out@).len() && 0 <= j < views(out@).len() && i != j implies views(
                out@,
            )[i] != views(out@)[j] by {
                assert(views(out@)[i] == list[i].name@ && views(out@)[j] == list[j].name@);
            }
        }
        out
    }
}

impl<V: Copy> NameTable<V> {
    /// Every name with what it stands for, in ascending order of the names.
    pub fn sorted(&self) -> (r: Vec<Named<V>>)
        ensures
            lists_names(r@, self@),
    {
        proof {
            use_type_invariant(self);
        }
        let mut out: Vec<Named<V>> = Vec::new();
        let mut i: usize = 0;
        let ghost list = self.entries@;
        assert(list.take(0).len() == 0);
        while i < self.entries.len()
            invariant
                i <= self.entries.len(),
                list == self.entries@,
                names_distinct(list),
                lists_names(out@, names_of(list.take(i as int))),
            decreases self.entries.len() - i,
        {
            let entry = Named { name: self.entries[i].name.clone(), value: self.entries[i].value };
            proof {
                let before = list.take(i as int);
                assert(list.take(i + 1) == before.push(list[i as int]));
                assert(names_distinct(before));
                if names_of(before).contains_key(entry.name@) {
                    let j = choose|j: int|
                        0 <= j < before.len() && (#[trigger] before[j]).name@ == entry.name@;
                    assert(list[j].name@ != list[i as int].name@);
                }
                lemma_names_push(before, list[i as int]);
            }
            insert_sorted(&mut out, entry, Ghost(names_of(list.take(i as int))));
            i += 1;
        }
        assert(list.take(list.len() as int) == list);
        out
    }
}

/// A table of named assets. The same name may be given again, and several names
/// may stand for one asset.
#[verifier::reject_recursive_types(A)]
pub struct AssetMappings<A> {
    names: NameTable<u32>,
    assets: HashMap<u32, A>,
    next: u32,
}

impl<A> View for AssetMappings<A> {
    type V = MappingsModel<A>;

    closed spec fn view(&self) -> MappingsModel<A> {
        MappingsModel { names: self.names@, assets: self.assets@, next: self.next }
    }
}

impl<A> AssetMappings<A> {
    pub fn new() -> (r: Self)
        ensures
            r@ == MappingsModel::<A>::empty(),
    {
        broadcast use vstd::std_specs::hash::group_hash_axioms;

        AssetMappings { names: NameTable::new(), assets: HashMap::new(), next: INVALID_INDEX }
    }

    /// The index that `name` stands for.
    pub fn find(&self, name: &str) -> (r: Option<u32>)
        ensures
            match r {
                Some(i) => self@.names.contains_key(name@) && self@.names[name@] == i,
                None => !self@.names.contains_key(name@),
            },
    {
        match self.names.find(name) {
            Some(i) => Some(*i),
            None => None,
        }
    }

    /// Makes `name` stand for `index`.
    pub fn set_name(&mut self, name: &str, index: u32)
        ensures
            final(self)@ == old(self)@.with_name(name@, index),
    {
        self.names.set(name, index);
    }

    /// Stores an asset under a new index.
    pub fn store(&mut self, asset: A) -> (r: u32)
        ensures
            r == due_index(old(self)@.next),
            final(self)@ == old(self)@.with_asset(asset),
    {
        broadcast use vstd::std_specs::hash::group_hash_axioms;

        let index: u32 = if self.next == INVALID_INDEX {
            0
        } else {
            self.next
        };
        self.next = index + 1;
        self.assets.insert(index, asset);
        index
    }

    /// Stores an asset under a new index and makes `name` stand for it.
    pub fn add_named(&mut self, name: &str, asset: A) -> (r: u32)
        ensures
            r == due_index(old(self)@.next),
            final(self)@ == old(self)@.with_asset(asset).with_name(name@, r),
    {
        let index = self.store(asset);
        self.set_name(name, index);
        index
    }

    /// Stores an asset at an index of the caller's.
    pub fn replace(&mut self, index: u32, asset: A)
        ensures
            final(self)@ == (MappingsModel {
                assets: old(self)@.assets.insert(index, asset),
                ..old(self)@
            }),
    {
        broadcast use vstd::std_specs::hash::group_hash_axioms;

        self.assets.insert(index, asset);
    }

    pub fn remove(&mut self, index: u32)
        ensures
            final(self)@ == (MappingsModel {
                assets: old(self)@.assets.remove(index),
                ..old(self)@
            }),
    {
        broadcast use vstd::std_specs::hash::group_hash_axioms;

        self.assets.remove(&index);
    }

    pub fn get(&self, index: u32) -> (r: Option<&A>)
        ensures
            match r {
                Some(a) => self@.assets.contains_key(index) && self@.assets[index] == *a,
                None => !self@.assets.contains_key(index),
            },
    {
        broadcast use vstd::std_specs::hash::group_hash_axioms;

        self.assets.get(&index)
    }

    /// The assets themselves, for changes in place.
    pub fn assets_mut(&mut self) -> (r: &mut HashMap<u32, A>)
        ensures
            (*r)@ == old(self)@.assets,
            final(self)@ == (MappingsModel { assets: final(r)@, ..old(self)@ }),
    {
        &mut self.assets
    }

    pub fn assets(&self) -> (r: &HashMap<u32, A>)
        ensures
            r@ == self@.assets,
    {
        &self.assets
    }

    /// The asset at `index`, for changes in place.
    pub fn get_mut(&mut self, index: u32) -> (r: Option<&mut A>)
        ensures
            match r {
                Some(a) => {
                    &&& old(self)@.assets.contains_key(index)
                    &&& *a == old(self)@.assets[index]
                    &&& final(self)@ == (MappingsModel {
                        assets: old(self)@.assets.insert(index, *final(a)),
                        ..old(self)@
                    })
                },
                None => !old(self)@.assets.contains_key(index) && final(self)@ == old(self)@,
            },
    {
        broadcast use vstd::std_specs::hash::group_hash_axioms;

        match self.assets.entry(index) {
            Entry::Occupied(e) => Some(e.into_mut()),
            Entry::Vacant(_) => None,
        }
    }

    /// All indices in use, in no particular order.
    pub fn indices(&self) -> (r: Vec<u32>)
        ensures
            r@.no_duplicates(),
            forall|i: u32| #[trigger] r@.contains(i) <==> self@.assets.contains_key(i),
    {
        map_keys(&self.assets)
    }

    pub fn len(&self) -> (r: usize)
        ensures
            r == self@.assets.dom().len(),
    {
        broadcast use vstd::std_specs::hash::group_hash_axioms;

        self.assets.len()
    }

    /// Every name with its index, in ascending order of the names.
    pub fn sorted_names(&self) -> (r: Vec<Named<u32>>)
        ensures
            lists_names(r@, self@.names),
    {
        self.names.sorted()
    }
}

fn insert_sorted<V>(out: &mut Vec<Named<V>>, entry: Named<V>, names: Ghost<Map<Seq<char>, V>>)
    requires
        lists_names(old(out)@, names@),
        !names@.contains_key(entry.name@),
    ensures
        lists_names(final(out)@, names@.insert(entry.name@, entry.value)),
{
    let mut k: usize = 0;
    while k < out.len() && text_before(out[k].name.as_str(), entry.name.as_str())
        invariant
            k <= out.len(),
            forall|j: int| 0 <= j < k ==> text_lt((#[trigger] out@[j]).name@, entry.name@),
        decreases out.len() - k,
    {
        k += 1;
    }
    let ghost before = out@;
    proof {
        assert forall|j: int| k <= j < before.len() implies text_lt(
            entry.name@,
            (#[trigger] before[j]).name@,
        ) by {
            text_lt_is_total(before[k as int].name@, entry.name@);
            assert(names@.contains_key(before[k as int].name@));
            if j > k {
                text_lt_is_transitive(entry.name@, before[k as int].name@, before[j].name@);
            }
        }
    }
    let ghost kept = entry;
    out.insert(k, entry);
    proof {
        let after = out@;
        let all = names@.insert(kept.name@, kept.value);
        assert(after[k as int] == kept);
        assert(forall|j: int| 0 <= j < k ==> after[j] == before[j]);
        assert(forall|j: int| k < j < after.len() ==> after[j] == before[j - 1]);
        assert forall|i: int, j: int| 0 <= i < j < after.len() implies text_lt(
            (#[trigger] after[i]).name@,
            (#[trigger] after[j]).name@,
        ) by {
            if i < k && j > k {
                assert(text_lt(before[i].name@, before[j - 1].name@));
            } else if i > k {
                assert(text_lt(before[i - 1].name@, before[j - 1].name@));
            } else if j < k {
                assert(text_lt(before[i].name@, before[j].name@));
            }
        }
        assert forall|i: int| 0 <= i < after.len() implies all.contains_key(
            (#[trigger] after[i]).name@,
        ) && all[after[i].name@] == after[i].value by {
            if i < k {
                assert(names@.contains_key(before[i].name@));
            } else if i > k {
                assert(names@.contains_key(before[i - 1].name@));
            }
        }
        assert forall|n: Seq<char>| #[trigger] all.contains_key(n) implies exists|i: int|
            0 <= i < after.len() && (#[trigger] after[i]).name@ == n by {
            if n == kept.name@ {
                assert(after[k as int].name@ == n);
            } else {
                assert(names@.contains_key(n));
                let i = choose|i: int| 0 <= i < before.len() && (#[trigger] before[i]).name@ == n;
                if i < k {
                    assert(after[i].name@ == n);
                } else {
                    assert(after[i + 1].name@ == n);
                }
            }
        }
    }
}

/// The keys of a map, each once, in no particular order.
pub fn map_keys<V>(m: &HashMap<u32, V>) -> (r: Vec<u32>)
    ensures
        r@.no_duplicates(),
        forall|i: u32| #[trigger] r@.contains(i) <==> m@.contains_key(i),
{
    broadcast use vstd::std_specs::hash::group_hash_axioms;

    let mut out: Vec<u32> = Vec::new();
    for k in it: m.keys()
        invariant
            it.seq() == vstd::std_specs::iter::IteratorSpec::remaining(
                &vstd::std_specs::hash::spec_keys_iter(m),
            ),
            out@ == it.seq().unref().take(it.index() as int),
    {
        assert(it.seq().unref().take(it.index() + 1) == it.seq().unref().take(
            it.index() as int,
        ).push(*k));
        out.push(*k);
    }
    proof {
        let all = vstd::std_specs::iter::IteratorSpec::remaining(
            &vstd::std_specs::hash::spec_keys_iter(m),
        );
        assert(out@ == all.unref());
        assert(all.unref().to_set() == m@.dom());
        assert forall|i: u32| #[trigger] out@.contains(i) <==> m@.contains_key(i) by {
            assert(out@.to_set().contains(i) == out@.contains(i));
        }
        assert forall|i: int, j: int| 0 <= i < j < out@.len() implies out@[i] != out@[j] by {
            assert(all[i] != all[j]);
        }
    }
    out
}

/// Indices are handed out one after the other from zero on, and from zero again after
/// the last one; the largest number is never among them. What is stored is found under
/// its index, and nothing else about the table changes.
pub proof fn indices_are_handed_out_in_turn<A>(table: &mut AssetMappings<A>, asset: A, r: u32)
    requires
        call_ensures(AssetMappings::<A>::store, (table, asset), r),
    ensures
        r != 0xffff_ffff,
        r == if old(table)@.next == 0xffff_ffff {
            0
        } else {
            old(table)@.next
        },
        final(table)@.next == r + 1,
        final(table)@.assets == old(table)@.assets.insert(r, asset),
        final(table)@.names == old(table)@.names,
{
}

/// A named asset is found by its name and under its index; other names go on standing
/// for what they stood for.
pub proof fn named_assets_are_found<A>(
    table: &mut AssetMappings<A>,
    name: &str,
    asset: A,
    r: u32,
    other: Seq<char>,
)
    requires
        call_ensures(AssetMappings::<A>::add_named, (table, name, asset), r),
    ensures
        final(table)@.names.contains_key(name@),
        final(table)@.names[name@] == r,
        final(table)@.assets.contains_key(r),
        final(table)@.assets[r] == asset,
        final(table)@.next == r + 1,
        r == if old(table)@.next == 0xffff_ffff {
            0
        } else {
            old(table)@.next
        },
        other != name@ ==> (final(table)@.names.contains_key(other) <==> old(
            table,
        )@.names.contains_key(other)) && final(table)@.names[other] == old(table)@.names[other],
{
}

/// A new table holds nothing, and its first asset is number zero.
pub proof fn tables_start_at_zero<A>(table: AssetMappings<A>, name: Seq<char>, index: u32)
    requires
        call_ensures(AssetMappings::<A>::new, (), table),
    ensures
        !table@.names.contains_key(name),
        !table@.assets.contains_key(index),
        table@.next == 0xffff_ffff,
{
}

/// A handle names something wherever its index is not the largest number.
pub proof fn the_largest_index_names_nothing(index: u32)
    ensures
        (TextureHandle { index }).valid() <==> index != 0xffff_ffff,
        (ShaderHandle { index }).valid() <==> index != 0xffff_ffff,
        (ByteFileHandle { index }).valid() <==> index != 0xffff_ffff,
        (ModelHandle { index }).valid() <==> index != 0xffff_ffff,
        (MaterialHandle { index }).valid() <==> index != 0xffff_ffff,
        (CollisionHandle { index }).valid() <==> index != 0xffff_ffff,
{
}

/// A name is found exactly where it was given, and an asset exactly where it is stored.
pub proof fn tables_find_what_they_hold<A>(
    table: AssetMappings<A>,
    name: &str,
    found: Option<u32>,
    index: u32,
    asset: Option<&A>,
)
    requires
        call_ensures(AssetMappings::<A>::find, (&table, name), found),
        call_ensures(AssetMappings::<A>::get, (&table, index), asset),
    ensures
        table@.names.contains_key(name@) ==> found == Some(table@.names[name@]),
        !table@.names.contains_key(name@) ==> found is None,
        table@.assets.contains_key(index) ==> asset is Some && *asset->0 == table@.assets[index],
        !table@.assets.contains_key(index) ==> asset is None,
{
}

/// Removing an asset takes it out and nothing else; its names stay, and so does the
/// index that is due.
pub proof fn removed_assets_leave_the_rest<A>(
    table: &mut AssetMappings<A>,
    index: u32,
    other: u32,
)
    requires
        call_ensures(AssetMappings::<A>::remove, (table, index), ()),
    ensures
        !final(table)@.assets.contains_key(index),
        other != index ==> (final(table)@.assets.contains_key(other) <==> old(
            table,
        )@.assets.contains_key(other)) && final(table)@.assets[other] == old(table)@.assets[other],
        final(table)@.names == old(table)@.names,
        final(table)@.next == old(table)@.next,
{
}

/// Replacing an asset puts the new one in its place and changes nothing else.
pub proof fn replaced_assets_leave_the_rest<A>(
    table: &mut AssetMappings<A>,
    index: u32,
    asset: A,
    other: u32,
)
    requires
        call_ensures(AssetMappings::<A>::replace, (table, index, asset), ()),
    ensures
        final(table)@.assets.contains_key(index),
        final(table)@.assets[index] == asset,
        other != index ==> (final(table)@.assets.contains_key(other) <==> old(
            table,
        )@.assets.contains_key(other)) && final(table)@.assets[other] == old(table)@.assets[other],
        final(table)@.names == old(table)@.names,
        final(table)@.next == old(table)@.next,
{
}

/// The names are listed once each with what they stand for, every one of them before
/// those that come after it in the order of texts.
pub proof fn names_are_listed_in_order<A>(
    table: AssetMappings<A>,
    r: Vec<Named<u32>>,
    name: Seq<char>,
    i: int,
    j: int,
)
    requires
        call_ensures(AssetMappings::<A>::sorted_names, (&table,), r),
    ensures
        table@.names.contains_key(name) <==> exists|k: int|
            0 <= k < r@.len() && (#[trigger] r@[k]).name@ == name,
        0 <= i < r@.len() ==> r@[i].value == table@.names[r@[i].name@],
        0 <= i < j < r@.len() ==> text_lt(r@[i].name@, r@[j].name@),
{
    if exists|k: int| 0 <= k < r@.len() && (#[trigger] r@[k]).name@ == name {
        let k = choose|k: int| 0 <= k < r@.len() && (#[trigger] r@[k]).name@ == name;
        assert(table@.names.contains_key(r@[k].name@));
    }
}

/// The indices in use are listed once each.
pub proof fn used_indices_are_listed<A>(table: AssetMappings<A>, r: Vec<u32>, index: u32)
    requires
        call_ensures(AssetMappings::<A>::indices, (&table,), r),
    ensures
        r@.contains(index) <==> table@.assets.contains_key(index),
        r@.no_duplicates(),
{
}

} // verus!
