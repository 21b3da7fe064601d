//! The persistent description of a stack: its target and its ordered layers.
use vstd::prelude::*;

verus! {

/// Version number written into every new stack description.
pub const STACK_METADATA_VERSION: i32 = 1;

/// Name of the folder (inside the git folder) that holds all stack state.
pub const STACK_METADATA_PATH: &'static str = "stack";

/// Represents the metadata associated with a layer in the stack
#[derive(Debug)]
pub struct LayerMetadata {
    /// The branch name for this layer
    pub branch: String,
    /// The base object ID for this layer
    pub base_oid: String,
}

/// The mathematical value of a layer: its branch name and its base.
pub struct LayerView {
    pub branch: Seq<char>,
    pub base_oid: Seq<char>,
}

impl View for LayerMetadata {
    type V = LayerView;

    open spec fn view(&self) -> LayerView {
        LayerView { branch: self.branch@, base_oid: self.base_oid@ }
    }
}

impl Clone for LayerMetadata {
    fn clone(&self) -> (res: Self)
        ensures
            res == *self,
    {
        LayerMetadata { branch: self.branch.clone(), base_oid: self.base_oid.clone() }
    }
}

/// Represents the metadata associated with a stack
#[derive(Debug)]
pub struct StackMetadata {
    /// The version of the stack metadata
    pub version: i32,
    /// The target ref for this stack
    pub target: String,
    /// The layers that make up the stack, bottom (closest to the target) first
    pub layers: Vec<LayerMetadata>,
}

/// The mathematical value of a stack description.
pub struct StackView {
    pub version: i32,
    pub target: Seq<char>,
    pub layers: Seq<LayerView>,
}

/// The views of a sequence of layers.
pub open spec fn layers_view(layers: Seq<LayerMetadata>) -> Seq<LayerView> {
    layers.map_values(|l: LayerMetadata| l@)
}

impl View for StackMetadata {
    type V = StackView;

    open spec fn view(&self) -> StackView {
        StackView { version: self.version, target: self.target@, layers: layers_view(self.layers@) }
    }
}

/// Some layer of `layers` is on branch `branch`.
pub open spec fn has_branch(layers: Seq<LayerView>, branch: Seq<char>) -> bool {
    exists|i: int| 0 <= i < layers.len() && #[trigger] layers[i].branch == branch
}

/// `i` is the first index of `layers` whose branch is `branch`.
pub open spec fn is_first_position(layers: Seq<LayerView>, branch: Seq<char>, i: int) -> bool {
    &&& 0 <= i < layers.len()
    &&& layers[i].branch == branch
    &&& forall|j: int| 0 <= j < i ==> #[trigger] layers[j].branch != branch
}

/// No branch occurs in two layers.
pub open spec fn branches_unique(layers: Seq<LayerView>) -> bool {
    forall|i: int, j: int|
        0 <= i < layers.len() && 0 <= j < layers.len() && i != j ==> #[trigger] layers[i].branch
            != #[trigger] layers[j].branch
}

/// Why a layer could not be added to a stack.
#[derive(Debug)]
pub enum AddLayerError {
    /// The branch is already a layer of the stack.
    LayerExists(String),
    /// The requested position lies beyond the top of the stack.
    PositionOutOfBounds { position: usize, size: usize },
}

impl Clone for StackMetadata {
    fn clone(&self) -> (res: Self)
        ensures
            res@ == self@,
    {
        StackMetadata {
            version: self.version,
            target: self.target.clone(),
            layers: clone_layers(&self.layers),
        }
    }
}

/// A copy of a sequence of layers.
pub fn clone_layers(layers: &Vec<LayerMetadata>) -> (res: Vec<LayerMetadata>)
    ensures
        res@ == layers@,
{
    let mut res: Vec<LayerMetadata> = Vec::new();
    let mut i: usize = 0;
    while i < layers.len()
        invariant
            i <= layers.len(),
            res@ == layers@.take(i as int),
        decreases layers.len() - i,
    {
        res.push(layers[i].clone());
        assert(layers@.take(i + 1) == layers@.take(i as int).push(layers@[i as int]));
        i += 1;
    }
    assert(layers@.take(layers.len() as int) == layers@);
    res
}

impl StackMetadata {
    /// Creates a new stack metadata with the specified target
    pub fn new(target: String) -> (res: Self)
        ensures
            res@ == (StackView { version: 1, target: target@, layers: Seq::empty() }),
    {
        let res = Self { version: STACK_METADATA_VERSION, target, layers: Vec::new() };
        assert(res@.layers =~= Seq::<LayerView>::empty());
        res
    }

    /// The number of layers.
    pub fn size(&self) -> (n: usize)
        ensures
            n == self@.layers.len(),
    {
        self.layers.len()
    }

    /// The position of the layer on `branch` (0 = bottom), if there is one.
    pub fn get_position(&self, branch: &String) -> (pos: Option<usize>)
        ensures
            match pos {
                Some(i) => is_first_position(self@.layers, branch@, i as int),
                None => !has_branch(self@.layers, branch@),
            },
    {
        let mut i: usize = 0;
        while i < self.layers.len()
            invariant
                i <= self.layers.len(),
                forall|j: int| 0 <= j < i ==> #[trigger] self@.layers[j].branch != branch@,
            decreases self.layers.len() - i,
        {
            if self.layers[i].branch == *branch {
                return Some(i);
            }
            i += 1;
        }
        None
    }

    /// Inserts a layer at `position` (0 = bottom); the layers at and above
    /// that position move up by one.
    pub fn add_layer_at(&mut self, branch: &String, base: &String, position: usize) -> (res: Result<
        (),
        AddLayerError,
    >)
        ensures
            final(self).version == old(self).version,
            final(self).target == old(self).target,
            has_branch(old(self)@.layers, branch@) ==> (res matches Err(
                AddLayerError::LayerExists(b),
            ) && b@ == branch@ && final(self)@ == old(self)@),
            !has_branch(old(self)@.layers, branch@) && position > old(self)@.layers.len() ==> (
            res matches Err(AddLayerError::PositionOutOfBounds { position: p, size: s }) && p
                == position && s == old(self)@.layers.len() && final(self)@ == old(self)@),
            !has_branch(old(self)@.layers, branch@) && position <= old(self)@.layers.len() ==> (
            res is Ok && final(self)@.layers == old(self)@.layers.insert(
                position as int,
                LayerView { branch: branch@, base_oid: base@ },
            )),
    {
        if self.get_position(branch).is_some() {
            return Err(AddLayerError::LayerExists(branch.clone()));
        }
        let size = self.layers.len();
        if position > size {
            return Err(AddLayerError::PositionOutOfBounds { position, size });
        }
        let layer = LayerMetadata { branch: branch.clone(), base_oid: base.clone() };
        let ghost before = self.layers@;
        self.layers.insert(position, layer);
        proof {
            assert(layers_view(self.layers@) =~= layers_view(before).insert(position as int, layer@));
        }
        Ok(())
    }

    /// Adds a layer on top of the stack.
    pub fn add_layer(&mut self, branch: &String, base: &String) -> (res: Result<(), AddLayerError>)
        ensures
            final(self).version == old(self).version,
            final(self).target == old(self).target,
            has_branch(old(self)@.layers, branch@) ==> (res matches Err(
                AddLayerError::LayerExists(b),
            ) && b@ == branch@ && final(self)@ == old(self)@),
            !has_branch(old(self)@.layers, branch@) ==> (res is Ok && final(self)@.layers
                == old(self)@.layers.push(LayerView { branch: branch@, base_oid: base@ })),
    {
        let size = self.layers.len();
        let res = self.add_layer_at(branch, base, size);
        proof {
            let l = LayerView { branch: branch@, base_oid: base@ };
            assert(old(self)@.layers.insert(size as int, l) =~= old(self)@.layers.push(l));
        }
        res
    }

    /// Removes the layer on `branch`, returning it; `None` when the stack
    /// has no such layer.
    pub fn remove_layer(&mut self, branch: &String) -> (res: Option<LayerMetadata>)
        ensures
            final(self).version == old(self).version,
            final(self).target == old(self).target,
            !has_branch(old(self)@.layers, branch@) ==> res is None && final(self)@ == old(self)@,
            has_branch(old(self)@.layers, branch@) ==> exists|i: int|
                #[trigger] is_first_position(old(self)@.layers, branch@, i) && (res matches Some(
                    l,
                ) && l@ == old(self)@.layers[i] && final(self)@.layers == old(
                    self,
                )@.layers.remove(i)),
    {
        match self.get_position(branch) {
            None => None,
            Some(i) => {
                let ghost before = self.layers@;
                let removed = self.layers.remove(i);
                proof {
                    assert(layers_view(self.layers@) =~= layers_view(before).remove(i as int));
                    assert(is_first_position(old(self)@.layers, branch@, i as int));
                }
                Some(removed)
            },
        }
    }
}


/// A stack: its name and its description.
#[derive(Debug)]
pub struct Stack {
    pub name: String,
    pub metadata: StackMetadata,
}

impl Stack {
    /// The name of the stack.
    pub fn name(&self) -> (n: &String)
        ensures
            n == self.name,
    {
        &self.name
    }

    /// The description of the stack.
    pub fn metadata(&self) -> (m: &StackMetadata)
        ensures
            m == self.metadata,
    {
        &self.metadata
    }

    /// Replaces the description of the stack.
    pub fn set_metadata(&mut self, metadata: StackMetadata)
        ensures
            final(self).name == old(self).name,
            final(self).metadata == metadata,
    {
        self.metadata = metadata;
    }
}

/// Copies an optional string.
pub fn clone_option_string(s: &Option<String>) -> (res: Option<String>)
    ensures
        res == *s,
{
    match s {
        Some(v) => Some(v.clone()),
        None => None,
    }
}

/// There is only one first position of a branch.
pub proof fn lemma_first_position_unique(layers: Seq<LayerView>, branch: Seq<char>, i: int, j: int)
    requires
        is_first_position(layers, branch, i),
        is_first_position(layers, branch, j),
    ensures
        i == j,
{
}

/// A layer inserted at `position` on a branch that the stack did not hold
/// is found again exactly there.
pub proof fn lemma_inserted_layer_found(layers: Seq<LayerView>, position: int, layer: LayerView)
    requires
        !has_branch(layers, layer.branch),
        0 <= position <= layers.len(),
    ensures
        is_first_position(layers.insert(position, layer), layer.branch, position),
{
    let ins = layers.insert(position, layer);
    assert forall|j: int| 0 <= j < position implies #[trigger] ins[j].branch != layer.branch by {
        assert(ins[j] == layers[j]);
    }
}

/// Removing the layer that was just inserted gives back the stack as it was:
/// the first position of the new branch is the insertion position, and
/// removing there restores the layers.
pub proof fn lemma_remove_undoes_insert(layers: Seq<LayerView>, position: int, layer: LayerView)
    requires
        !has_branch(layers, layer.branch),
        0 <= position <= layers.len(),
    ensures
        forall|i: int|
            #[trigger] is_first_position(layers.insert(position, layer), layer.branch, i) ==> i
                == position,
        layers.insert(position, layer).remove(position) == layers,
{
    lemma_inserted_layer_found(layers, position, layer);
    assert forall|i: int|
        #[trigger] is_first_position(
            layers.insert(position, layer),
            layer.branch,
            i,
        ) implies i == position by {
        lemma_first_position_unique(layers.insert(position, layer), layer.branch, i, position);
    }
    assert(layers.insert(position, layer).remove(position) =~= layers);
}

/// Adding a layer on a new branch keeps every branch unique.
pub proof fn lemma_insert_keeps_unique(layers: Seq<LayerView>, position: int, layer: LayerView)
    requires
        branches_unique(layers),
        !has_branch(layers, layer.branch),
        0 <= position <= layers.len(),
    ensures
        branches_unique(layers.insert(position, layer)),
{
    let ins = layers.insert(position, layer);
    assert forall|i: int, j: int|
        0 <= i < ins.len() && 0 <= j < ins.len() && i != j implies #[trigger] ins[i].branch
        != #[trigger] ins[j].branch by {
        if i == position {
            let k = if j < position { j } else { j - 1 };
            assert(ins[j] == layers[k]);
        } else if j == position {
            let k = if i < position { i } else { i - 1 };
            assert(ins[i] == layers[k]);
        } else {
            let ki = if i < position { i } else { i - 1 };
            let kj = if j < position { j } else { j - 1 };
            assert(ins[i] == layers[ki]);
            assert(ins[j] == layers[kj]);
        }
    }
}

/// Removing a layer keeps every branch unique, and the removed branch is
/// then no longer in the stack.
pub proof fn lemma_remove_keeps_unique(layers: Seq<LayerView>, i: int)
    requires
        branches_unique(layers),
        0 <= i < layers.len(),
    ensures
        branches_unique(layers.remove(i)),
        !has_branch(layers.remove(i), layers[i].branch),
{
    let rem = layers.remove(i);
    assert forall|a: int, b: int|
        0 <= a < rem.len() && 0 <= b < rem.len() && a != b implies #[trigger] rem[a].branch
        != #[trigger] rem[b].branch by {
        let ka = if a < i { a } else { a + 1 };
        let kb = if b < i { b } else { b + 1 };
        assert(rem[a] == layers[ka]);
        assert(rem[b] == layers[kb]);
    }
    if has_branch(rem, layers[i].branch) {
        let a = choose|a: int| 0 <= a < rem.len() && #[trigger] rem[a].branch == layers[i].branch;
        let ka = if a < i { a } else { a + 1 };
        assert(rem[a] == layers[ka]);
    }
}

} // verus!
