use crate::error::ConvertError;
use crate::foreign::{array_copy, optional_copy, spec_array_copy, ForeignMemory, NULL};
use crate::lineage::{
    lemma_lineage_fits, lemma_lineage_starts, lemma_not_on_lineage, lineage,
};
use crate::outline::{lemma_fault_stays, trace, trace_each, Outline};
use vstd::prelude::*;

verus! {

broadcast use vstd::std_specs::hash::group_hash_axioms;

/// A node's handle on its parent. It owns nothing of the parent and keeps
/// nothing alive: it says where the parent sits, counted from the root, and
/// is looked up in a tree with [`Node::at`] or [`Node::parent_of`].
#[derive(Debug)]
pub struct ParentRef {
    /// The child indices that lead from the root to the parent.
    pub path: Vec<usize>,
    /// The index of the node that holds this handle among the children of
    /// its parent.
    pub slot: usize,
}

/// What a [`ParentRef`] says.
pub struct ParentLink {
    pub path: Seq<usize>,
    pub slot: usize,
}

impl View for ParentRef {
    type V = ParentLink;

    open spec fn view(&self) -> ParentLink {
        ParentLink { path: self.path@, slot: self.slot }
    }
}

/// What an optional handle says.
pub open spec fn link_of(parent: Option<ParentRef>) -> Option<ParentLink> {
    match parent {
        None => None,
        Some(handle) => Some(handle@),
    }
}

/// The place of the node that holds `link`: its parent's place, then its own
/// slot. The root, which holds no link, sits at the empty path.
pub open spec fn position(link: Option<ParentLink>) -> Seq<usize> {
    match link {
        None => Seq::empty(),
        Some(l) => l.path.push(l.slot),
    }
}

/// A node of the owned tree. It owns its children; of its parent it has
/// only a handle.
#[derive(Debug)]
pub struct Node<M, T> {
    pub name: String,
    pub children: Vec<Node<M, T>>,
    pub meshes: Vec<u32>,
    pub metadata: Option<M>,
    pub transformation: T,
    pub parent: Option<ParentRef>,
}

/// The two conversions that the walk borrows can be called on whatever a
/// resident node record hands them.
pub open spec fn collaborators_serve<M, T, FM: Fn(u64) -> M, FT: Fn([u32; 16]) -> T>(
    memory: &ForeignMemory,
    metadata_of: &FM,
    transform_of: &FT,
) -> bool {
    forall|a: u64| #[trigger]
        memory.nodes@.contains_key(a) ==> {
            let record = memory.nodes@[a];
            &&& record.metadata != NULL ==> call_requires(metadata_of, (record.metadata,))
            &&& call_requires(transform_of, (record.transformation,))
        }
}

/// What a conversion may return, as a relation between what it is given and
/// what it gives back.
pub open spec fn outcomes<A, R, F: Fn(A) -> R>(convert: &F) -> spec_fn(A, R) -> bool {
    |given: A, back: R| call_ensures(convert, (given,), back)
}

impl ParentRef {
    /// The place of the node that holds this handle.
    pub fn position(&self) -> (r: Vec<usize>)
        ensures
            r@ == position(Some(self@)),
    {
        let mut place = copy_path(&self.path);
        place.push(self.slot);
        place
    }
}

/// A copy of `path`.
fn copy_path(path: &Vec<usize>) -> (r: Vec<usize>)
    ensures
        r@ == path@,
{
    let mut copy: Vec<usize> = Vec::new();
    let mut i: usize = 0;
    while i < path.len()
        invariant
            i <= path@.len(),
            copy@ == path@.take(i as int),
        decreases path@.len() - i,
    {
        copy.push(path[i]);
        i += 1;
        assert(copy@ =~= path@.take(i as int));
    }
    assert(path@.take(i as int) =~= path@);
    copy
}

impl<M, T> Node<M, T> {
    /// Converts the foreign tree whose root record is at `address` into an
    /// owned tree. The root gets no parent; every other node gets the handle
    /// of the node that owns it.
    ///
    /// The tree is walked depth first, children in array order. The walk
    /// succeeds exactly where [`trace`] finds a tree, and fails with the
    /// fault that [`trace`] names.
    pub fn new<FM: Fn(u64) -> M, FT: Fn([u32; 16]) -> T>(
        memory: &ForeignMemory,
        address: u64,
        metadata_of: &FM,
        transform_of: &FT,
    ) -> (r: Result<Self, ConvertError>)
        requires
            collaborators_serve(memory, metadata_of, transform_of),
        ensures
            match trace(memory, address, NULL, Set::empty()) {
                Ok(outline) => {
                    &&& r is Ok
                    &&& r.unwrap().matches(
                        outline,
                        memory,
                        outcomes(metadata_of),
                        outcomes(transform_of),
                    )
                    &&& r.unwrap().linked(None)
                },
                Err(e) => r == Err::<Self, ConvertError>(e),
            },
            r is Ok ==> r.unwrap().parent is None,
    {
        proof {
            lemma_lineage_starts(memory);
        }
        Self::convert(memory, address, NULL, None, metadata_of, transform_of, Ghost(Seq::empty()))
    }

    /// Converts the tree of a scene that may have none: the null address
    /// gives `Ok(None)` and nothing is read, any other address gives what
    /// [`Node::new`] gives.
    pub fn root<FM: Fn(u64) -> M, FT: Fn([u32; 16]) -> T>(
        memory: &ForeignMemory,
        address: u64,
        metadata_of: &FM,
        transform_of: &FT,
    ) -> (r: Result<Option<Self>, ConvertError>)
        requires
            collaborators_serve(memory, metadata_of, transform_of),
        ensures
            address == NULL ==> r == Ok::<Option<Self>, ConvertError>(None),
            address != NULL ==> match trace(memory, address, NULL, Set::empty()) {
                Ok(outline) => {
                    &&& r is Ok
                    &&& r.unwrap() is Some
                    &&& r.unwrap().unwrap().matches(
                        outline,
                        memory,
                        outcomes(metadata_of),
                        outcomes(transform_of),
                    )
                    &&& r.unwrap().unwrap().linked(None)
                },
                Err(e) => r == Err::<Option<Self>, ConvertError>(e),
            },
    {
        if address == NULL {
            return Ok(None);
        }
        match Self::new(memory, address, metadata_of, transform_of) {
            Ok(root) => Ok(Some(root)),
            Err(e) => Err(e),
        }
    }

    /// Converts the node at `address`, found under the node at
    /// `expected_parent`, and gives it `parent` as its handle. `ancestors`
    /// is the line of descent down to `expected_parent`.
    fn convert<FM: Fn(u64) -> M, FT: Fn([u32; 16]) -> T>(
        memory: &ForeignMemory,
        address: u64,
        expected_parent: u64,
        parent: Option<ParentRef>,
        metadata_of: &FM,
        transform_of: &FT,
        Ghost(ancestors): Ghost<Seq<u64>>,
    ) -> (r: Result<Self, ConvertError>)
        requires
            lineage(memory, ancestors, expected_parent),
            collaborators_serve(memory, metadata_of, transform_of),
        ensures
            match trace(memory, address, expected_parent, ancestors.to_set()) {
                Ok(outline) => {
                    &&& r is Ok
                    &&& r.unwrap().matches(
                        outline,
                        memory,
                        outcomes(metadata_of),
                        outcomes(transform_of),
                    )
                    &&& r.unwrap().linked(link_of(parent))
                },
                Err(e) => r == Err::<Self, ConvertError>(e),
            },
        decreases memory.nodes@.dom().len() - ancestors.len(),
    {
        if address == NULL {
            return Err(ConvertError::DanglingAddress);
        }
        let record = match memory.nodes.get(&address) {
            None => {
                return Err(ConvertError::DanglingAddress);
            },
            Some(record) => record,
        };
        if record.parent != expected_parent {
            return Err(ConvertError::ParentMismatch);
        }
        let ghost line = ancestors.push(address);
        let ghost visited = ancestors.to_set().insert(address);
        proof {
            lemma_not_on_lineage(memory, ancestors, expected_parent, address);
            lemma_lineage_fits(memory, line, address);
        }
        let below = match array_copy(&memory.node_arrays, record.children, record.num_children) {
            Err(e) => {
                return Err(e);
            },
            Ok(below) => below,
        };
        let place: Vec<usize> = match &parent {
            None => Vec::new(),
            Some(handle) => handle.position(),
        };
        let mut children: Vec<Self> = Vec::new();
        let ghost mut outlines: Seq<Outline> = Seq::empty();
        let mut i: usize = 0;
        let ghost whole = trace(memory, address, expected_parent, ancestors.to_set());
        let ghost beneath = trace_each(memory, below@, below@.len(), address, visited);
        assert(beneath is Err ==> whole == Err::<Outline, ConvertError>(beneath->Err_0));
        while i < below.len()
            invariant
                i <= below@.len(),
                whole == trace(memory, address, expected_parent, ancestors.to_set()),
                beneath == trace_each(memory, below@, below@.len(), address, visited),
                beneath is Err ==> whole == Err::<Outline, ConvertError>(beneath->Err_0),
                lineage(memory, line, address),
                line.to_set() == visited,
                line.len() == ancestors.len() + 1,
                line.len() <= memory.nodes@.dom().len(),
                collaborators_serve(memory, metadata_of, transform_of),
                place@ == position(link_of(parent)),
                trace_each(memory, below@, i as nat, address, visited) == Ok::<
                    Seq<Outline>,
                    ConvertError,
                >(outlines),
                children@.len() == i,
                outlines.len() == i,
                forall|k: int|
                    0 <= k < i ==> {
                        &&& (#[trigger] children@[k]).matches(
                            outlines[k],
                            memory,
                            outcomes(metadata_of),
                            outcomes(transform_of),
                        )
                        &&& children@[k].linked(
                            Some(ParentLink { path: place@, slot: k as usize }),
                        )
                    },
            decreases below@.len() - i,
        {
            let handle = ParentRef { path: copy_path(&place), slot: i };
            match Self::convert(
                memory,
                below[i],
                address,
                Some(handle),
                metadata_of,
                transform_of,
                Ghost(line),
            ) {
                Err(e) => {
                    proof {
                        assert(trace_each(memory, below@, (i + 1) as nat, address, visited)
                            is Err);
                        lemma_fault_stays(
                            memory,
                            below@,
                            (i + 1) as nat,
                            below@.len(),
                            address,
                            visited,
                        );
                    }
                    return Err(e);
                },
                Ok(child) => {
                    proof {
                        outlines = outlines.push(
                            trace(memory, below@[i as int], address, visited).unwrap(),
                        );
                    }
                    children.push(child);
                },
            }
            i += 1;
        }
        let meshes = match array_copy(&memory.index_arrays, record.meshes, record.num_meshes) {
            Err(e) => {
                return Err(e);
            },
            Ok(meshes) => meshes,
        };
        let metadata = optional_copy(record.metadata, metadata_of);
        let transformation = transform_of(record.transformation);
        Ok(
            Node {
                name: record.name.clone(),
                children,
                meshes,
                metadata,
                transformation,
                parent,
            },
        )
    }

    /// This node and all beneath it are the owned copy of the foreign tree
    /// `outline`: the same shape in the same order, each node with its
    /// record's name, its mesh indices in array order, its metadata present
    /// exactly where the record has a metadata address, and metadata and
    /// transform related to what the record holds as `metadata_is` and
    /// `transform_is` say.
    pub open spec fn matches(
        &self,
        outline: Outline,
        memory: &ForeignMemory,
        metadata_is: spec_fn(u64, M) -> bool,
        transform_is: spec_fn([u32; 16], T) -> bool,
    ) -> bool
        decreases outline,
    {
        let record = memory.nodes@[outline.address];
        &&& memory.nodes@.contains_key(outline.address)
        &&& self.name@ == record.name@
        &&& spec_array_copy(memory.index_arrays@, record.meshes, record.num_meshes) == Ok::<
            Seq<u32>,
            ConvertError,
        >(self.meshes@)
        &&& record.metadata == NULL ==> self.metadata is None
        &&& record.metadata != NULL ==> self.metadata is Some && metadata_is(
            record.metadata,
            self.metadata.unwrap(),
        )
        &&& transform_is(record.transformation, self.transformation)
        &&& self.children@.len() == record.num_children
        &&& self.children@.len() == outline.children.len()
        &&& forall|i: int|
            0 <= i < outline.children.len() ==> (#[trigger] self.children@[i]).matches(
                outline.children[i],
                memory,
                metadata_is,
                transform_is,
            )
    }

    /// This node holds `link`, and every node beneath it holds the handle
    /// that names its parent's place and its own slot there.
    pub open spec fn linked(&self, link: Option<ParentLink>) -> bool
        decreases self,
    {
        &&& link_of(self.parent) == link
        &&& forall|i: int|
            0 <= i < self.children@.len() ==> (#[trigger] self.children@[i]).linked(
                Some(ParentLink { path: position(link), slot: i as usize }),
            )
    }

    /// The node that `path` leads to from this one, if it leads anywhere.
    pub open spec fn descend(&self, path: Seq<usize>) -> Option<Self>
        decreases path.len(),
    {
        if path.len() == 0 {
            Some(*self)
        } else if path[0] < self.children@.len() {
            self.children@[path[0] as int].descend(path.drop_first())
        } else {
            None
        }
    }

    /// Follows `path` down from this node.
    pub fn at(&self, path: &Vec<usize>) -> (r: Option<&Self>)
        ensures
            match r {
                Some(found) => self.descend(path@) == Some(*found),
                None => self.descend(path@) is None,
            },
    {
        let mut here = self;
        let mut i: usize = 0;
        assert(path@.skip(0) =~= path@);
        while i < path.len()
            invariant
                i <= path@.len(),
                self.descend(path@) == here.descend(path@.skip(i as int)),
            decreases path@.len() - i,
        {
            let slot: usize = path[i];
            assert(path@.skip(i as int).drop_first() =~= path@.skip(i + 1));
            if slot >= here.children.len() {
                return None;
            }
            here = &here.children[slot];
            i += 1;
        }
        Some(here)
    }

    /// Looks up, in the tree that hangs from this node, the parent that
    /// `child` names. The root names none, and a handle that leads nowhere
    /// in this tree finds none.
    pub fn parent_of<'a>(&'a self, child: &Self) -> (r: Option<&'a Self>)
        ensures
            child.parent is None ==> r is None,
            child.parent is Some ==> match r {
                Some(found) => self.descend(child.parent.unwrap()@.path) == Some(*found),
                None => self.descend(child.parent.unwrap()@.path) is None,
            },
    {
        match &child.parent {
            None => None,
            Some(handle) => self.at(&handle.path),
        }
    }
}

} // verus!
