//! Descriptor bindings: which uniform buffer or texture goes to which slot of
//! a pipeline's descriptor set.
//!
//! A set of uniforms declares its bindings by slot index, in strictly
//! increasing order. A descriptor set is filled slot by slot from zero, so
//! every slot that no binding claims is filled with an empty placeholder.

use vstd::prelude::*;

verus! {

/// The largest slot index a binding may claim.
pub const MAX_BINDING: u32 = 0x7fff_ffff;

/// What a binding hands to the pipeline.
#[derive(Debug, Clone, Copy, PartialEq, Eq, Structural)]
pub enum BindingKind {
    /// A uniform buffer.
    Buffer,
    /// An image together with its sampler.
    SampledImage,
}

/// A uniform field or texture paired with the pipeline slot it is bound to.
#[derive(Debug, Clone, Copy, PartialEq, Eq, Structural)]
pub struct DescriptorBinding {
    pub index: u32,
    pub kind: BindingKind,
}

/// What one slot of a descriptor set is filled with.
#[derive(Debug, Clone, Copy, PartialEq, Eq, Structural)]
pub enum Slot {
    /// A placeholder: nothing is bound here.
    Empty,
    /// A declared binding of the given kind.
    Bound(BindingKind),
}

/// Why a list of bindings cannot be laid out.
#[derive(Debug, Clone, Copy, PartialEq, Eq, Structural)]
pub enum BindingError {
    /// The slot before a gap is below -1, which stands for "none yet".
    IllegalBinding { previous: i32 },
    /// A binding's slot is not above the one declared before it, or is above
    /// [`MAX_BINDING`].
    NotIncreasing { previous: i32, next: u32 },
}

/// A declared binding finds no slot of its kind in the pipeline's layout.
#[derive(Debug, Clone, Copy, PartialEq, Eq, Structural)]
pub struct LayoutMismatchError {
    /// The slot of the first binding that does not resolve.
    pub binding: u32,
}

/// The material families that come with their own shaders and uniforms.
#[derive(Debug, Clone, Copy, PartialEq, Eq, Structural)]
pub enum ShaderFamily {
    /// Phong shading with a diffuse texture.
    PhongWithTexture,
    /// Phong shading with a constant diffuse colour.
    PhongNoTexture,
    /// The unlit shader of the point-light gizmo.
    Emissive,
}

/// The slots strictly between `previous` and `next`, in order.
pub open spec fn gap(previous: int, next: int) -> Seq<u32> {
    Seq::new((next - previous - 1) as nat, |i: int| (previous + 1 + i) as u32)
}

/// A gap may be filled: `previous` is a slot or -1, and `next` lies above it
/// and within range.
pub open spec fn gap_is_legal(previous: int, next: int) -> bool {
    -1 <= previous < next <= MAX_BINDING
}

/// The slot indices are in range and strictly increasing.
pub open spec fn strictly_increasing(bindings: Seq<DescriptorBinding>) -> bool {
    &&& forall|i: int| 0 <= i < bindings.len() ==> (#[trigger] bindings[i]).index <= MAX_BINDING
    &&& forall|i: int, j: int|
        0 <= i < j < bindings.len() ==> (#[trigger] bindings[i]).index < (#[trigger] bindings[j]).index
}

/// The slot claimed before position `k`: that of binding `k - 1`, or -1.
pub open spec fn slot_before(bindings: Seq<DescriptorBinding>, k: int) -> int {
    if k <= 0 {
        -1
    } else {
        bindings[k - 1].index as int
    }
}

/// Position `k` is the first whose binding cannot follow the one before it.
pub open spec fn first_disorder(bindings: Seq<DescriptorBinding>, k: int) -> bool {
    &&& 0 <= k < bindings.len()
    &&& !gap_is_legal(slot_before(bindings, k), bindings[k].index as int)
    &&& forall|j: int|
        0 <= j < k ==> gap_is_legal(#[trigger] slot_before(bindings, j), bindings[j].index as int)
}

/// How many slots the layout of `bindings` has: one past the last declared.
pub open spec fn slot_count(bindings: Seq<DescriptorBinding>) -> int {
    slot_before(bindings, bindings.len() as int) + 1
}

/// What slot `s` holds once the first `n` bindings are laid out: the binding
/// declared for it, or a placeholder.
pub open spec fn slot_of(bindings: Seq<DescriptorBinding>, n: int, s: int) -> Slot
    decreases n,
{
    if n <= 0 {
        Slot::Empty
    } else if bindings[n - 1].index == s {
        Slot::Bound(bindings[n - 1].kind)
    } else {
        slot_of(bindings, n - 1, s)
    }
}

/// The gap-filled layout of `bindings`: it runs from slot zero to the last
/// declared slot, holds each binding at its own slot and a placeholder
/// everywhere else.
pub open spec fn layout_of(bindings: Seq<DescriptorBinding>) -> Seq<Slot> {
    Seq::new(
        slot_count(bindings) as nat,
        |s: int| slot_of(bindings, bindings.len() as int, s),
    )
}

/// Binding `k` finds a slot of its kind in `schema`.
pub open spec fn resolves(schema: Seq<Option<BindingKind>>, b: DescriptorBinding) -> bool {
    b.index < schema.len() && schema[b.index as int] == Some(b.kind)
}

/// Every binding finds a slot of its kind in `schema`.
pub open spec fn all_resolve(schema: Seq<Option<BindingKind>>, bindings: Seq<DescriptorBinding>) -> bool {
    forall|i: int| 0 <= i < bindings.len() ==> resolves(schema, #[trigger] bindings[i])
}

/// `e` names the first binding that finds no slot of its kind in `schema`.
pub open spec fn first_unresolved(
    schema: Seq<Option<BindingKind>>,
    bindings: Seq<DescriptorBinding>,
    e: LayoutMismatchError,
) -> bool {
    exists|k: int|
        {
            &&& 0 <= k < bindings.len()
            &&& !resolves(schema, #[trigger] bindings[k])
            &&& e.binding == bindings[k].index
            &&& forall|j: int| 0 <= j < k ==> resolves(schema, #[trigger] bindings[j])
        }
}

/// The bindings that the uniforms of a shader family declare.
pub open spec fn family_bindings(family: ShaderFamily) -> Seq<DescriptorBinding> {
    match family {
        ShaderFamily::PhongWithTexture => seq![
            DescriptorBinding { index: 0, kind: BindingKind::Buffer },
            DescriptorBinding { index: 1, kind: BindingKind::Buffer },
            DescriptorBinding { index: 2, kind: BindingKind::SampledImage },
        ],
        ShaderFamily::PhongNoTexture => seq![
            DescriptorBinding { index: 0, kind: BindingKind::Buffer },
            DescriptorBinding { index: 1, kind: BindingKind::Buffer },
        ],
        ShaderFamily::Emissive => seq![DescriptorBinding { index: 0, kind: BindingKind::Buffer }],
    }
}

/// Lists the placeholder slots that must be filled between two declared
/// bindings: every slot above `previous` and below `next`. A `previous` of -1
/// means that nothing was declared yet.
pub fn add_empty_descriptor_bindings(previous: i32, next: u32) -> (res: Result<
    Vec<u32>,
    BindingError,
>)
    ensures
        match res {
            Ok(empty) => gap_is_legal(previous as int, next as int) && empty@ == gap(
                previous as int,
                next as int,
            ),
            Err(e) => !gap_is_legal(previous as int, next as int) && e == (if previous < -1 {
                BindingError::IllegalBinding { previous }
            } else {
                BindingError::NotIncreasing { previous, next }
            }),
        },
{
    if previous < -1 {
        return Err(BindingError::IllegalBinding { previous });
    }
    if next > MAX_BINDING || (next as i32) <= previous {
        return Err(BindingError::NotIncreasing { previous, next });
    }
    let mut empty: Vec<u32> = Vec::new();
    let mut slot: u32 = (previous + 1) as u32;
    while slot < next
        invariant
            -1 <= previous < next <= MAX_BINDING,
            previous + 1 <= slot <= next,
            empty@ == gap(previous as int, slot as int),
        decreases next - slot,
    {
        empty.push(slot);
        slot += 1;
        assert(empty@ =~= gap(previous as int, slot as int));
    }
    Ok(empty)
}

proof fn lemma_ordered_is_increasing(bindings: Seq<DescriptorBinding>, n: int)
    requires
        0 <= n <= bindings.len(),
        forall|j: int|
            0 <= j < n ==> gap_is_legal(#[trigger] slot_before(bindings, j), bindings[j].index as int),
    ensures
        strictly_increasing(bindings.take(n)),
    decreases n,
{
    if n > 0 {
        lemma_ordered_is_increasing(bindings, n - 1);
        let a = bindings.take(n - 1);
        let b = bindings.take(n);
        assert(gap_is_legal(slot_before(bindings, n - 1), bindings[n - 1].index as int));
        assert forall|i: int, j: int| 0 <= i < j < b.len() implies (#[trigger] b[i]).index < (
        #[trigger] b[j]).index by {
            if j < n - 1 {
                assert(a[i].index < a[j].index);
            } else if i < n - 2 {
                assert(a[i].index < a[n - 2].index);
            }
        }
        assert forall|i: int| 0 <= i < b.len() implies (#[trigger] b[i]).index <= MAX_BINDING by {
            if i < n - 1 {
                assert(a[i].index <= MAX_BINDING);
            }
        }
    }
}

/// A list of bindings is strictly increasing and in range exactly if no
/// position is out of order.
pub proof fn lemma_disorder_iff_not_increasing(bindings: Seq<DescriptorBinding>)
    ensures
        strictly_increasing(bindings) <==> !exists|k: int| first_disorder(bindings, k),
{
    if strictly_increasing(bindings) {
        assert forall|k: int| !first_disorder(bindings, k) by {
            if 0 < k < bindings.len() {
                assert(bindings[k - 1].index < bindings[k].index);
            }
        }
    } else {
        assert(bindings.take(bindings.len() as int) =~= bindings);
        lemma_find_disorder(bindings, bindings.len() as int);
    }
}

proof fn lemma_find_disorder(bindings: Seq<DescriptorBinding>, n: int)
    requires
        0 <= n <= bindings.len(),
        !strictly_increasing(bindings.take(n)),
    ensures
        exists|k: int| first_disorder(bindings, k),
    decreases n,
{
    if n == 0 {
        assert(strictly_increasing(bindings.take(0)));
    } else if !strictly_increasing(bindings.take(n - 1)) {
        lemma_find_disorder(bindings, n - 1);
    } else {
        if forall|j: int|
            0 <= j < n ==> gap_is_legal(#[trigger] slot_before(bindings, j), bindings[j].index as int) {
            lemma_ordered_is_increasing(bindings, n);
        } else {
            let a = bindings.take(n - 1);
            assert forall|j: int| 0 <= j < n - 1 implies gap_is_legal(
                #[trigger] slot_before(bindings, j),
                bindings[j].index as int,
            ) by {
                assert(a[j].index <= MAX_BINDING);
                if j > 0 {
                    assert(a[j - 1].index < a[j].index);
                }
            }
            assert(first_disorder(bindings, n - 1));
        }
    }
}

/// The empty placeholders that fill a gap of `n` slots.
spec fn placeholders(n: int) -> Seq<Slot> {
    Seq::new(n as nat, |i: int| Slot::Empty)
}

proof fn lemma_slot_of_prefix(a: Seq<DescriptorBinding>, b: Seq<DescriptorBinding>, n: int, s: int)
    requires
        0 <= n <= a.len(),
        n <= b.len(),
        forall|i: int| 0 <= i < n ==> a[i] == b[i],
    ensures
        slot_of(a, n, s) == slot_of(b, n, s),
    decreases n,
{
    if n > 0 {
        lemma_slot_of_prefix(a, b, n - 1, s);
    }
}

proof fn lemma_slot_of_unclaimed(bindings: Seq<DescriptorBinding>, n: int, s: int)
    requires
        0 <= n <= bindings.len(),
        forall|i: int| 0 <= i < n ==> (#[trigger] bindings[i]).index != s,
    ensures
        slot_of(bindings, n, s) == Slot::Empty,
    decreases n,
{
    if n > 0 {
        lemma_slot_of_unclaimed(bindings, n - 1, s);
    }
}

proof fn lemma_layout_step(
    bindings: Seq<DescriptorBinding>,
    k: int,
    before: Seq<Slot>,
    slots: Seq<Slot>,
)
    requires
        0 <= k < bindings.len(),
        forall|j: int|
            0 <= j <= k ==> gap_is_legal(#[trigger] slot_before(bindings, j), bindings[j].index as int),
        before == layout_of(bindings.take(k)),
        slots == (before + placeholders(bindings[k].index - slot_before(bindings, k) - 1)).push(
            Slot::Bound(bindings[k].kind),
        ),
    ensures
        slots == layout_of(bindings.take(k + 1)),
{
    let done = bindings.take(k);
    let next = bindings.take(k + 1);
    let b = bindings[k];
    let cur = slot_before(bindings, k);
    lemma_ordered_is_increasing(bindings, k + 1);
    assert(gap_is_legal(slot_before(bindings, k), bindings[k].index as int));
    assert(slot_before(done, done.len() as int) == cur) by {
        if k > 0 {
            assert(done[k - 1] == bindings[k - 1]);
        }
    }
    assert(before.len() == cur + 1);
    assert(slots.len() == b.index + 1);
    assert(next[k] == b);
    assert(slot_before(next, next.len() as int) == b.index);
    assert forall|s: int| 0 <= s < slots.len() implies slots[s] == slot_of(next, k + 1, s) by {
        if s == b.index {
        } else {
            lemma_slot_of_prefix(next, done, k, s);
            if s < before.len() {
                assert(slots[s] == before[s]);
            } else {
                assert(slots[s] == placeholders(b.index - cur - 1)[s - before.len()]);
                assert forall|i: int| 0 <= i < k implies (#[trigger] done[i]).index != s by {
                    assert(done[i] == next[i]);
                    assert(next[k - 1].index == cur);
                    if i < k - 1 {
                        assert(next[i].index < next[k - 1].index);
                    }
                }
                lemma_slot_of_unclaimed(done, k, s);
            }
        }
    }
    assert(slots =~= layout_of(next));
}

/// The binding schema that a layout asks of a pipeline: a slot expects what
/// the layout binds to it, and nothing where the layout has a placeholder.
pub open spec fn schema_of(slots: Seq<Slot>) -> Seq<Option<BindingKind>> {
    Seq::new(
        slots.len(),
        |s: int|
            match slots[s] {
                Slot::Empty => None,
                Slot::Bound(kind) => Some(kind),
            },
    )
}

proof fn lemma_slot_of_claimed(bindings: Seq<DescriptorBinding>, n: int, i: int)
    requires
        strictly_increasing(bindings),
        0 <= i < n <= bindings.len(),
    ensures
        slot_of(bindings, n, bindings[i].index as int) == Slot::Bound(bindings[i].kind),
    decreases n,
{
    if i < n - 1 {
        assert(bindings[i].index < bindings[n - 1].index);
        lemma_slot_of_claimed(bindings, n - 1, i);
    }
}

/// Bindings declared in strictly increasing order always resolve against
/// the schema of their own layout: a mismatch can only come from a pipeline
/// that was built for other uniforms.
pub proof fn lemma_bindings_resolve_against_own_layout(bindings: Seq<DescriptorBinding>, i: int)
    requires
        strictly_increasing(bindings),
        0 <= i < bindings.len(),
    ensures
        resolves(schema_of(layout_of(bindings)), bindings[i]),
{
    let n = bindings.len() as int;
    if i < n - 1 {
        assert(bindings[i].index < bindings[n - 1].index);
    }
    lemma_slot_of_claimed(bindings, n, i);
}

/// Lays out declared bindings slot by slot, filling every gap before a
/// declared slot with a placeholder. Bindings that are not declared in
/// strictly increasing slot order are rejected at the first offender.
pub fn layout_slots(bindings: &Vec<DescriptorBinding>) -> (res: Result<Vec<Slot>, BindingError>)
    ensures
        match res {
            Ok(slots) => strictly_increasing(bindings@) && slots@ == layout_of(bindings@),
            Err(e) => exists|k: int|
                first_disorder(bindings@, k) && e == (BindingError::NotIncreasing {
                    previous: slot_before(bindings@, k) as i32,
                    next: bindings@[k].index,
                }),
        },
{
    let mut slots: Vec<Slot> = Vec::new();
    let mut current: i32 = -1;
    assert(slots@ =~= layout_of(bindings@.take(0)));
    let mut k: usize = 0;
    while k < bindings.len()
        invariant
            k <= bindings@.len(),
            current == slot_before(bindings@, k as int),
            -1 <= current <= MAX_BINDING,
            forall|j: int|
                0 <= j < k ==> gap_is_legal(
                    #[trigger] slot_before(bindings@, j),
                    bindings@[j].index as int,
                ),
            slots@ == layout_of(bindings@.take(k as int)),
        decreases bindings@.len() - k,
    {
        let binding = bindings[k];
        let ghost before = slots@;
        proof {
            assert(before =~= before + placeholders(0));
        }
        match add_empty_descriptor_bindings(current, binding.index) {
            Ok(empty) => {
                let mut g: usize = 0;
                while g < empty.len()
                    invariant
                        g <= empty@.len(),
                        empty@ == gap(current as int, binding.index as int),
                        slots@ == before + placeholders(g as int),
                    decreases empty@.len() - g,
                {
                    slots.push(Slot::Empty);
                    g += 1;
                    assert(slots@ =~= before + placeholders(g as int));
                }
                slots.push(Slot::Bound(binding.kind));
                proof {
                    lemma_layout_step(bindings@, k as int, before, slots@);
                }
                current = binding.index as i32;
            },
            Err(e) => {
                proof {
                    assert(first_disorder(bindings@, k as int));
                }
                return Err(e);
            },
        }
        k += 1;
    }
    proof {
        assert(bindings@.take(k as int) =~= bindings@);
        lemma_ordered_is_increasing(bindings@, k as int);
    }
    Ok(slots)
}

/// Checks every declared binding against the binding schema of a pipeline's
/// descriptor-set layout, where `schema[i]` is what slot `i` expects.
pub fn resolve_bindings(
    bindings: &Vec<DescriptorBinding>,
    schema: &Vec<Option<BindingKind>>,
) -> (res: Result<(), LayoutMismatchError>)
    ensures
        match res {
            Ok(_) => all_resolve(schema@, bindings@),
            Err(e) => first_unresolved(schema@, bindings@, e),
        },
{
    let mut k: usize = 0;
    while k < bindings.len()
        invariant
            k <= bindings@.len(),
            forall|j: int| 0 <= j < k ==> resolves(schema@, #[trigger] bindings@[j]),
        decreases bindings@.len() - k,
    {
        let b = bindings[k];
        let found = (b.index as usize) < schema.len() && match schema[b.index as usize] {
            Some(kind) => kind == b.kind,
            None => false,
        };
        if !found {
            return Err(LayoutMismatchError { binding: b.index });
        }
        k += 1;
    }
    Ok(())
}

impl ShaderFamily {
    /// Declares which uniform of this family goes to which slot.
    pub fn create_descriptor_bindings(&self) -> (bindings: Vec<DescriptorBinding>)
        ensures
            bindings@ == family_bindings(*self),
            strictly_increasing(bindings@),
    {
        let bindings = match self {
            ShaderFamily::PhongWithTexture => vec![
                DescriptorBinding { index: 0, kind: BindingKind::Buffer },
                DescriptorBinding { index: 1, kind: BindingKind::Buffer },
                DescriptorBinding { index: 2, kind: BindingKind::SampledImage },
            ],
            ShaderFamily::PhongNoTexture => vec![
                DescriptorBinding { index: 0, kind: BindingKind::Buffer },
                DescriptorBinding { index: 1, kind: BindingKind::Buffer },
            ],
            ShaderFamily::Emissive => vec![
                DescriptorBinding { index: 0, kind: BindingKind::Buffer },
            ],
        };
        assert(bindings@ =~= family_bindings(*self));
        bindings
    }

    /// Prepares the descriptor set of this family for a pipeline whose
    /// descriptor-set layout expects `schema`: every declared binding must
    /// find its slot there, and the slots to fill are handed back in order.
    pub fn descriptor_slots(&self, schema: &Vec<Option<BindingKind>>) -> (res: Result<
        Vec<Slot>,
        LayoutMismatchError,
    >)
        ensures
            match res {
                Ok(slots) => all_resolve(schema@, family_bindings(*self)) && slots@ == layout_of(
                    family_bindings(*self),
                ),
                Err(e) => first_unresolved(schema@, family_bindings(*self), e),
            },
    {
        let bindings = self.create_descriptor_bindings();
        match resolve_bindings(&bindings, schema) {
            Ok(_) => {},
            Err(e) => {
                return Err(e);
            },
        }
        match layout_slots(&bindings) {
            Ok(slots) => Ok(slots),
            Err(_) => {
                // never taken: the bindings of every family are declared in order
                proof {
                    lemma_disorder_iff_not_increasing(bindings@);
                }
                Ok(Vec::new())
            },
        }
    }
}

} // verus!
