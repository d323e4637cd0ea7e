//! The containers of a document, by name.
//!
//! A document holds one container for each name. Of two blocks with the same
//! name the later one stays.
use vstd::prelude::*;
use crate::container::{Container, ContainerModel};
use crate::text::bytes_eq;

verus! {

/// The containers of a sequence by their names. Of two containers with the
/// same name, the later one stays.
pub open spec fn containers_map(blocks: Seq<ContainerModel>) -> Map<Seq<u8>, ContainerModel>
    decreases blocks.len(),
{
    if blocks.len() == 0 {
        Map::empty()
    } else {
        containers_map(blocks.drop_last()).insert(blocks.last().name, blocks.last())
    }
}

/// No two containers of the sequence have the same name.
pub open spec fn distinct_names(blocks: Seq<ContainerModel>) -> bool {
    forall|i: int, j: int|
        0 <= i < blocks.len() && 0 <= j < blocks.len() && i != j ==> blocks[i].name
            != blocks[j].name
}

/// The map holds a name exactly when a container of the sequence has it.
pub proof fn lemma_map_names(blocks: Seq<ContainerModel>, name: Seq<u8>)
    ensures
        containers_map(blocks).contains_key(name) <==> exists|i: int|
            0 <= i < blocks.len() && #[trigger] blocks[i].name == name,
        containers_map(blocks).dom().finite(),
        containers_map(blocks).len() <= blocks.len(),
    decreases blocks.len(),
{
    if blocks.len() > 0 {
        let front = blocks.drop_last();
        lemma_map_names(front, name);
        if containers_map(blocks).contains_key(name) {
            if name == blocks.last().name {
                assert(blocks[blocks.len() - 1].name == name);
            } else {
                let i = choose|i: int| 0 <= i < front.len() && #[trigger] front[i].name == name;
                assert(blocks[i].name == name);
            }
        }
        if exists|i: int| 0 <= i < blocks.len() && #[trigger] blocks[i].name == name {
            let i = choose|i: int| 0 <= i < blocks.len() && #[trigger] blocks[i].name == name;
            if i < front.len() {
                assert(front[i].name == name);
            }
        }
    }
}

/// Whatever the map holds under a name is a container of the sequence and
/// has that name.
pub proof fn lemma_map_values(blocks: Seq<ContainerModel>, name: Seq<u8>)
    ensures
        containers_map(blocks).contains_key(name) ==> containers_map(blocks)[name].name == name
            && exists|i: int| 0 <= i < blocks.len() && #[trigger] blocks[i] == containers_map(blocks)[name],
    decreases blocks.len(),
{
    if blocks.len() > 0 {
        let front = blocks.drop_last();
        lemma_map_values(front, name);
        if containers_map(blocks).contains_key(name) {
            if name == blocks.last().name {
                assert(blocks[blocks.len() - 1] == containers_map(blocks)[name]);
            } else {
                let i = choose|i: int|
                    0 <= i < front.len() && #[trigger] front[i] == containers_map(front)[name];
                assert(blocks[i] == containers_map(blocks)[name]);
            }
        }
    }
}

/// A container that no later container shares its name with is the one the
/// map holds under that name.
pub proof fn lemma_last_wins(blocks: Seq<ContainerModel>, i: int)
    requires
        0 <= i < blocks.len(),
        forall|j: int| i < j < blocks.len() ==> blocks[j].name != blocks[i].name,
    ensures
        containers_map(blocks).contains_key(blocks[i].name),
        containers_map(blocks)[blocks[i].name] == blocks[i],
    decreases blocks.len(),
{
    if i < blocks.len() - 1 {
        let front = blocks.drop_last();
        assert(blocks.last().name != blocks[i].name);
        assert forall|j: int| i < j < front.len() implies front[j].name != front[i].name by {
            assert(front[j] == blocks[j]);
        }
        lemma_last_wins(front, i);
    }
}

/// Where the names differ pairwise, the map holds as many containers as the
/// sequence.
pub proof fn lemma_map_len(blocks: Seq<ContainerModel>)
    requires
        distinct_names(blocks),
    ensures
        containers_map(blocks).dom().finite(),
        containers_map(blocks).len() == blocks.len(),
    decreases blocks.len(),
{
    if blocks.len() > 0 {
        let front = blocks.drop_last();
        assert(distinct_names(front)) by {
            assert forall|i: int, j: int|
                0 <= i < front.len() && 0 <= j < front.len() && i != j implies front[i].name
                != front[j].name by {
                assert(front[i] == blocks[i] && front[j] == blocks[j]);
            }
        }
        lemma_map_len(front);
        lemma_map_names(front, blocks.last().name);
        if containers_map(front).contains_key(blocks.last().name) {
            let i = choose|i: int|
                0 <= i < front.len() && #[trigger] front[i].name == blocks.last().name;
            assert(blocks[i].name == blocks[blocks.len() - 1].name);
        }
    }
}

/// Putting a container in the place of one with the same name changes the
/// map as an insertion does.
pub proof fn lemma_map_update(blocks: Seq<ContainerModel>, i: int, block: ContainerModel)
    requires
        distinct_names(blocks),
        0 <= i < blocks.len(),
        blocks[i].name == block.name,
    ensures
        containers_map(blocks.update(i, block)) == containers_map(blocks).insert(
            block.name,
            block,
        ),
        distinct_names(blocks.update(i, block)),
    decreases blocks.len(),
{
    let front = blocks.drop_last();
    let changed = blocks.update(i, block);
    if i == blocks.len() - 1 {
        assert(changed.drop_last() =~= front);
        assert(containers_map(changed) =~= containers_map(blocks).insert(block.name, block));
    } else {
        assert(distinct_names(front)) by {
            assert forall|p: int, q: int|
                0 <= p < front.len() && 0 <= q < front.len() && p != q implies front[p].name
                != front[q].name by {
                assert(front[p] == blocks[p] && front[q] == blocks[q]);
            }
        }
        lemma_map_update(front, i, block);
        assert(changed.drop_last() =~= front.update(i, block));
        assert(changed.last() == blocks.last());
        assert(blocks[blocks.len() - 1].name != blocks[i].name);
        assert(containers_map(changed) =~= containers_map(blocks).insert(block.name, block));
    }
}

/// The mathematical values of a sequence of containers, in the same order.
pub open spec fn block_models<'a>(blocks: Seq<Container<'a>>) -> Seq<ContainerModel> {
    blocks.map_values(|c: Container<'a>| c@)
}

/// The containers of a document, by name.
#[derive(Debug)]
pub struct Containers<'a> {
    entries: Vec<Container<'a>>,
}

impl<'a> View for Containers<'a> {
    type V = Map<Seq<u8>, ContainerModel>;

    closed spec fn view(&self) -> Map<Seq<u8>, ContainerModel> {
        containers_map(block_models(self.entries@))
    }
}

impl<'a> Containers<'a> {
    #[verifier::type_invariant]
    spec fn one_per_name(self) -> bool {
        distinct_names(block_models(self.entries@))
    }

    /// No containers.
    pub fn new() -> (containers: Self)
        ensures
            containers@ == Map::<Seq<u8>, ContainerModel>::empty(),
    {
        let containers = Containers { entries: Vec::new() };
        assert(block_models(containers.entries@) =~= Seq::empty());
        containers
    }

    /// The place of the container called `name`, if there is one.
    fn position(&self, name: &[u8]) -> (r: Option<usize>)
        ensures
            match r {
                Some(i) => i < self.entries@.len() && block_models(self.entries@)[i as int].name
                    == name@,
                None => forall|i: int|
                    0 <= i < self.entries@.len() ==> #[trigger] block_models(
                        self.entries@,
                    )[i].name != name@,
            },
    {
        let mut i: usize = 0;
        while i < self.entries.len()
            invariant
                i <= self.entries@.len(),
                forall|k: int|
                    0 <= k < i ==> #[trigger] block_models(self.entries@)[k].name != name@,
            decreases self.entries@.len() - i,
        {
            if bytes_eq(self.entries[i].name(), name) {
                return Some(i);
            }
            i += 1;
        }
        None
    }

    /// Puts `container` under its name. A container that was there under the
    /// same name is replaced.
    pub fn insert(&mut self, container: Container<'a>)
        ensures
            final(self)@ == old(self)@.insert(container@.name, container@),
    {
        proof {
            use_type_invariant(&*self);
        }
        let ghost before = block_models(self.entries@);
        let found = self.position(container.name());
        let mut entries: Vec<Container<'a>> = Vec::new();
        assert(block_models(entries@) =~= Seq::empty());
        core::mem::swap(&mut entries, &mut self.entries);
        match found {
            Some(i) => {
                proof {
                    lemma_map_update(before, i as int, container@);
                }
                entries[i] = container;
                assert(block_models(entries@) =~= before.update(i as int, container@));
            },
            None => {
                entries.push(container);
                assert(block_models(entries@) =~= before.push(container@));
                assert(before.push(container@).drop_last() =~= before);
                assert forall|p: int, q: int|
                    0 <= p < before.len() + 1 && 0 <= q < before.len() + 1 && p != q implies before.push(
                    container@,
                )[p].name != before.push(container@)[q].name by {
                    if p < before.len() {
                        assert(before.push(container@)[p] == before[p]);
                    }
                    if q < before.len() {
                        assert(before.push(container@)[q] == before[q]);
                    }
                }
            },
        }
        core::mem::swap(&mut entries, &mut self.entries);
    }

    /// The container called `name`, if there is one.
    pub fn get(&self, name: &[u8]) -> (r: Option<&Container<'a>>)
        ensures
            match r {
                Some(container) => self@.contains_key(name@) && self@[name@] == container@
                    && container@.name == name@,
                None => !self@.contains_key(name@),
            },
    {
        proof {
            use_type_invariant(self);
            lemma_map_names(block_models(self.entries@), name@);
        }
        match self.position(name) {
            Some(i) => {
                proof {
                    lemma_last_wins(block_models(self.entries@), i as int);
                }
                Some(&self.entries[i])
            },
            None => None,
        }
    }

    /// Whether there is a container called `name`.
    pub fn contains_key(&self, name: &[u8]) -> (r: bool)
        ensures
            r == self@.contains_key(name@),
    {
        self.get(name).is_some()
    }

    /// The number of containers.
    pub fn len(&self) -> (r: usize)
        ensures
            self@.dom().finite(),
            r == self@.len(),
    {
        proof {
            use_type_invariant(self);
            lemma_map_len(block_models(self.entries@));
        }
        self.entries.len()
    }

    /// The containers, one for each name.
    pub fn as_slice(&self) -> (entries: &[Container<'a>])
        ensures
            self@ == containers_map(block_models(entries@)),
            distinct_names(block_models(entries@)),
    {
        proof {
            use_type_invariant(self);
        }
        self.entries.as_slice()
    }

    /// Whether there is no container.
    pub fn is_empty(&self) -> (r: bool)
        ensures
            r == (self@.len() == 0),
            self@.dom().finite(),
    {
        self.len() == 0
    }
}

} // verus!
