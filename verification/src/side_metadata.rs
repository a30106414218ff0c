//! Side metadata: auxiliary bits kept outside object bodies, and the registry
//! that checks that no two declared metadata regions share storage.

use vstd::prelude::*;

verus! {

/// The declaration of one metadata region.
#[derive(Clone, Copy, Debug, PartialEq, Eq, Structural)]
pub struct SideMetadataSpec {
    /// What the metadata records.
    pub id: u32,
    /// Where the region starts in metadata storage.
    pub offset: usize,
    /// How many bytes of metadata storage the region takes.
    pub bytes: usize,
}

impl SideMetadataSpec {
    /// One past the last byte of the region.
    pub open spec fn end(self) -> int {
        self.offset + self.bytes
    }

    /// The region is not empty and ends within metadata storage.
    pub open spec fn well_formed(self) -> bool {
        self.bytes > 0 && self.end() <= usize::MAX
    }

    /// The two regions share a byte of storage.
    pub open spec fn overlaps(self, other: SideMetadataSpec) -> bool {
        self.offset < other.end() && other.offset < self.end()
    }

    /// Two different declarations that share storage. A declaration made twice
    /// does not conflict with itself.
    pub open spec fn conflicts_with(self, other: SideMetadataSpec) -> bool {
        self != other && self.overlaps(other)
    }

    pub fn is_well_formed(&self) -> (r: bool)
        ensures
            r == self.well_formed(),
    {
        self.bytes > 0 && self.bytes <= usize::MAX - self.offset
    }

    fn same_as(&self, other: &SideMetadataSpec) -> (r: bool)
        ensures
            r == (*self == *other),
    {
        self.id == other.id && self.offset == other.offset && self.bytes == other.bytes
    }

    /// Whether the two declarations differ and share storage.
    pub fn conflicts(&self, other: &SideMetadataSpec) -> (r: bool)
        ensures
            r == self.conflicts_with(*other),
    {
        let below_other_end = if self.offset < other.offset {
            true
        } else {
            self.offset - other.offset < other.bytes
        };
        let other_below_end = if other.offset < self.offset {
            true
        } else {
            other.offset - self.offset < self.bytes
        };
        !self.same_as(other) && below_other_end && other_below_end
    }
}

/// Every declaration in `specs` is well formed.
pub open spec fn all_well_formed(specs: Seq<SideMetadataSpec>) -> bool {
    forall|i: int| 0 <= i < specs.len() ==> (#[trigger] specs[i]).well_formed()
}

/// No declaration in `specs` conflicts with another one in it, nor with one in
/// `registered`.
pub open spec fn conflict_free(registered: Set<SideMetadataSpec>, specs: Seq<SideMetadataSpec>) -> bool {
    &&& forall|i: int, j: int|
        0 <= i < specs.len() && 0 <= j < specs.len() ==> !(#[trigger] specs[i]).conflicts_with(
            #[trigger] specs[j],
        )
    &&& forall|i: int, r: SideMetadataSpec|
        0 <= i < specs.len() && #[trigger] registered.contains(r) ==> !r.conflicts_with(
            #[trigger] specs[i],
        )
}

/// The metadata that one space needs: the regions shared by the whole heap and
/// the regions of the space's own policy.
pub struct SideMetadataContext {
    pub global: Vec<SideMetadataSpec>,
    pub local: Vec<SideMetadataSpec>,
}

impl SideMetadataContext {
    /// All declarations of the context, the global ones first.
    pub open spec fn specs(self) -> Seq<SideMetadataSpec> {
        self.global@ + self.local@
    }

    /// The global declarations of a plan: those the heap always has, followed
    /// by those the plan adds.
    pub fn new_global_specs(builtin: &Vec<SideMetadataSpec>, plan_specific: &Vec<SideMetadataSpec>) -> (r: Vec<
        SideMetadataSpec,
    >)
        ensures
            r@ == builtin@ + plan_specific@,
    {
        let mut ret: Vec<SideMetadataSpec> = Vec::new();
        append_specs(&mut ret, builtin);
        append_specs(&mut ret, plan_specific);
        ret
    }
}

/// Appends the declarations of `source` to `target`, in order.
pub fn append_specs(target: &mut Vec<SideMetadataSpec>, source: &Vec<SideMetadataSpec>)
    ensures
        final(target)@ == old(target)@ + source@,
{
    let mut i: usize = 0;
    while i < source.len()
        invariant
            i <= source.len(),
            target@ == old(target)@ + source@.subrange(0, i as int),
        decreases source.len() - i,
    {
        target.push(source[i]);
        i += 1;
    }
    assert(source@.subrange(0, source.len() as int) == source@);
}

/// Why a set of declarations was refused.
#[derive(Clone, Copy, Debug, PartialEq, Eq, Structural)]
pub enum SanityError {
    /// A declared region is empty or runs past the end of metadata storage.
    Malformed,
    /// Two different declarations share storage.
    Overlap,
}

/// The registry of all metadata regions declared so far.
pub struct SideMetadataSanity {
    registered: Vec<SideMetadataSpec>,
}

impl View for SideMetadataSanity {
    type V = Set<SideMetadataSpec>;

    /// The declarations that the registry has accepted.
    closed spec fn view(&self) -> Set<SideMetadataSpec> {
        Set::new(|s: SideMetadataSpec| self.registered@.contains(s))
    }
}

impl SideMetadataSanity {
    /// Every accepted declaration is well formed and no two of them conflict.
    pub closed spec fn wf(&self) -> bool {
        &&& forall|i: int|
            0 <= i < self.registered@.len() ==> (#[trigger] self.registered@[i]).well_formed()
        &&& forall|i: int, j: int|
            0 <= i < self.registered@.len() && 0 <= j < self.registered@.len() ==> !(
            #[trigger] self.registered@[i]).conflicts_with(#[trigger] self.registered@[j])
    }

    /// In a valid registry the accepted declarations are well formed and free
    /// of conflicts.
    pub proof fn lemma_registered_sound(&self, a: SideMetadataSpec, b: SideMetadataSpec)
        requires
            self.wf(),
            self@.contains(a),
            self@.contains(b),
        ensures
            a.well_formed(),
            !a.conflicts_with(b),
    {
        let i = choose|i: int| 0 <= i < self.registered@.len() && self.registered@[i] == a;
        let j = choose|j: int| 0 <= j < self.registered@.len() && self.registered@[j] == b;
        assert(self.registered@[i].well_formed());
        assert(!self.registered@[i].conflicts_with(self.registered@[j]));
    }

    /// An empty registry.
    pub fn new() -> (r: SideMetadataSanity)
        ensures
            r.wf(),
            r@ == Set::<SideMetadataSpec>::empty(),
    {
        let r = SideMetadataSanity { registered: Vec::new() };
        assert(r@ =~= Set::<SideMetadataSpec>::empty());
        r
    }

    /// Whether `spec` has been accepted already.
    pub fn is_registered(&self, spec: &SideMetadataSpec) -> (r: bool)
        ensures
            r == self@.contains(*spec),
    {
        let mut i: usize = 0;
        while i < self.registered.len()
            invariant
                i <= self.registered@.len(),
                forall|k: int| 0 <= k < i ==> self.registered@[k] != *spec,
            decreases self.registered.len() - i,
        {
            if self.registered[i].same_as(spec) {
                return true;
            }
            i += 1;
        }
        false
    }

    /// Whether `spec` conflicts with a declaration accepted already.
    fn conflicts_with_registered(&self, spec: &SideMetadataSpec) -> (r: bool)
        ensures
            r == exists|s: SideMetadataSpec| #[trigger] self@.contains(s) && s.conflicts_with(*spec),
    {
        let mut i: usize = 0;
        while i < self.registered.len()
            invariant
                i <= self.registered@.len(),
                forall|k: int| 0 <= k < i ==> !(#[trigger] self.registered@[k]).conflicts_with(*spec),
            decreases self.registered.len() - i,
        {
            if self.registered[i].conflicts(spec) {
                assert(self@.contains(self.registered@[i as int]));
                return true;
            }
            i += 1;
        }
        false
    }

    /// Checks the declarations of one space against each other and against all
    /// that were accepted before, and accepts them if nothing is wrong. A
    /// refused context leaves the registry as it was.
    pub fn verify_metadata_context(&mut self, context: &SideMetadataContext) -> (r: Result<(), SanityError>)
        requires
            old(self).wf(),
        ensures
            final(self).wf(),
            r is Ok <==> all_well_formed(context.specs()) && conflict_free(old(self)@, context.specs()),
            r == Err::<(), SanityError>(SanityError::Malformed) <==> !all_well_formed(context.specs()),
            r == Err::<(), SanityError>(SanityError::Overlap) <==> all_well_formed(context.specs())
                && !conflict_free(old(self)@, context.specs()),
            r is Ok ==> final(self)@ == old(self)@.union(context.specs().to_set()),
            r is Err ==> final(self)@ == old(self)@,
    {
        let mut specs: Vec<SideMetadataSpec> = Vec::new();
        append_specs(&mut specs, &context.global);
        append_specs(&mut specs, &context.local);
        assert(specs@ == context.specs());
        let n: usize = specs.len();

        let mut i: usize = 0;
        while i < n
            invariant
                i <= n,
                n == specs@.len(),
                specs@ == context.specs(),
                *self == *old(self),
                old(self).wf(),
                forall|k: int| 0 <= k < i ==> (#[trigger] specs@[k]).well_formed(),
            decreases n - i,
        {
            if !specs[i].is_well_formed() {
                return Err(SanityError::Malformed);
            }
            i += 1;
        }

        i = 0;
        while i < n
            invariant
                i <= n,
                n == specs@.len(),
                specs@ == context.specs(),
                *self == *old(self),
                old(self).wf(),
                all_well_formed(specs@),
                forall|a: int, b: int|
                    0 <= a < i && 0 <= b < i ==> !(#[trigger] specs@[a]).conflicts_with(#[trigger] specs@[b]),
                forall|a: int, s: SideMetadataSpec|
                    0 <= a < i && #[trigger] self@.contains(s) ==> !s.conflicts_with(#[trigger] specs@[a]),
            decreases n - i,
        {
            if self.conflicts_with_registered(&specs[i]) {
                return Err(SanityError::Overlap);
            }
            let mut j: usize = 0;
            while j < i
                invariant
                    j <= i,
                    i < n,
                    n == specs@.len(),
                    specs@ == context.specs(),
                    *self == *old(self),
                    old(self).wf(),
                    all_well_formed(specs@),
                    forall|b: int| 0 <= b < j ==> !(#[trigger] specs@[b]).conflicts_with(specs@[i as int]),
                decreases i - j,
            {
                if specs[j].conflicts(&specs[i]) {
                    return Err(SanityError::Overlap);
                }
                j += 1;
            }
            i += 1;
        }

        i = 0;
        while i < n
            invariant
                i <= n,
                n == specs@.len(),
                specs@ == context.specs(),
                self.wf(),
                old(self).wf(),
                all_well_formed(specs@),
                conflict_free(old(self)@, specs@),
                forall|s: SideMetadataSpec|
                    self@.contains(s) <==> old(self)@.contains(s) || exists|k: int|
                        0 <= k < i && #[trigger] specs@[k] == s,
            decreases n - i,
        {
            let spec = specs[i];
            let ghost seen = self@;
            if !self.is_registered(&spec) {
                let ghost before = self.registered@;
                self.registered.push(spec);
                assert forall|s: SideMetadataSpec| self@.contains(s) <==> before.contains(s) || s == spec by {
                    if before.contains(s) {
                        let k = choose|k: int| 0 <= k < before.len() && before[k] == s;
                        assert(self.registered@[k] == s);
                    }
                    if s == spec {
                        assert(self.registered@[before.len() as int] == s);
                    }
                }
                assert forall|a: int, b: int|
                    0 <= a < self.registered@.len() && 0 <= b < self.registered@.len() implies !(
                #[trigger] self.registered@[a]).conflicts_with(#[trigger] self.registered@[b]) by {
                    let x = self.registered@[a];
                    let y = self.registered@[b];
                    if a < before.len() && b < before.len() {
                        assert(!before[a].conflicts_with(before[b]));
                    } else if a < before.len() {
                        lemma_member_not_in_conflict(old(self)@, specs@, before[a], i as int);
                    } else if b < before.len() {
                        lemma_member_not_in_conflict(old(self)@, specs@, before[b], i as int);
                    }
                }
            }
            assert forall|s: SideMetadataSpec|
                self@.contains(s) <==> old(self)@.contains(s) || exists|k: int|
                    0 <= k < i + 1 && #[trigger] specs@[k] == s by {
                if s == spec {
                    assert(specs@[i as int] == s);
                }
                if seen.contains(s) && !old(self)@.contains(s) {
                    let k = choose|k: int| 0 <= k < i && #[trigger] specs@[k] == s;
                    assert(0 <= k < i + 1 && specs@[k] == s);
                }
            }
            i += 1;
        }
        assert(self@ =~= old(self)@.union(specs@.to_set()));
        Ok(())
    }
}

/// In a conflict-free set of declarations, one that is registered or declared
/// before position `i` does not conflict with the declaration at `i`.
proof fn lemma_member_not_in_conflict(
    registered: Set<SideMetadataSpec>,
    specs: Seq<SideMetadataSpec>,
    x: SideMetadataSpec,
    i: int,
)
    requires
        conflict_free(registered, specs),
        0 <= i < specs.len(),
        registered.contains(x) || exists|k: int| 0 <= k < i && #[trigger] specs[k] == x,
    ensures
        !x.conflicts_with(specs[i]),
        !specs[i].conflicts_with(x),
{
    if registered.contains(x) {
        assert(!x.conflicts_with(specs[i]));
    } else {
        let k = choose|k: int| 0 <= k < i && #[trigger] specs[k] == x;
        assert(!specs[k].conflicts_with(specs[i]));
    }
}

} // verus!
