use std::any::TypeId;
use std::cmp::Ordering;
use std::hash::{Hash, Hasher};

use ahash::AHasher;
use vstd::prelude::*;

verus! {

#[verifier::external_type_specification]
#[verifier::external_body]
pub struct ExTypeId(TypeId);

/// Relies on `TypeId`'s `==`: two ids are equal exactly when they are the same id.
pub assume_specification[ <TypeId as PartialEq>::eq ](a: &TypeId, b: &TypeId) -> (r: bool)
    ensures
        r == (*a == *b),
;

/// Relies on `TypeId::of`: the id of a type, nothing known of its value.
pub assume_specification<T: ?Sized + 'static>[ TypeId::of::<T> ]() -> TypeId;

/// Relies on `u64`'s `Hash` impl: it feeds the integer to the hasher.
pub assume_specification<H: Hasher>[ <u64 as Hash>::hash::<H> ](v: &u64, state: &mut H);

/// Relies on ahash's `AHasher::new_with_keys`, `Hash::hash` and `Hasher::finish`:
/// the hash of a value under two keys. Nothing is stated of the number: it
/// depends on how the value's own `Hash` impl feeds the hasher.
#[verifier::external_body]
fn content_hash<T: Hash + ?Sized>(value: &T, key1: u128, key2: u128) -> (r: u64) {
    let mut hasher = AHasher::new_with_keys(key1, key2);
    value.hash(&mut hasher);
    hasher.finish()
}

/// First fixed key of the content hash. It is public knowledge: labels are
/// not meant to resist inputs crafted to collide.
pub const LABEL_HASH_KEY_1: u128 = 420;

/// Second fixed key of the content hash.
pub const LABEL_HASH_KEY_2: u128 = 69;

/// An opaque identity token built from a label value: the value's type (when
/// known), the type's name, and a hash of the value's content.
#[derive(Clone, Debug)]
pub struct RawLabel {
    ty: Option<TypeId>,
    name: String,
    hash: u64,
}

/// The two-tier identity rule: tokens that both carry a type tag match on tag
/// and hash; otherwise they match on type name and hash.
pub open spec fn label_eq(a: RawLabel, b: RawLabel) -> bool {
    match (a.spec_ty(), b.spec_ty()) {
        (Some(x), Some(y)) => x == y && a.spec_hash() == b.spec_hash(),
        _ => a.spec_name() == b.spec_name() && a.spec_hash() == b.spec_hash(),
    }
}

/// Whether two tokens belong to the same nominal identity, and so can be ordered.
pub open spec fn same_identity(a: RawLabel, b: RawLabel) -> bool {
    match (a.spec_ty(), b.spec_ty()) {
        (Some(x), Some(y)) => x == y,
        _ => a.spec_name() == b.spec_name(),
    }
}

/// Order of two tokens: by content hash within one identity, none across identities.
pub open spec fn label_cmp(a: RawLabel, b: RawLabel) -> Option<Ordering> {
    if !same_identity(a, b) {
        None
    } else if a.spec_hash() < b.spec_hash() {
        Some(Ordering::Less)
    } else if a.spec_hash() == b.spec_hash() {
        Some(Ordering::Equal)
    } else {
        Some(Ordering::Greater)
    }
}

impl RawLabel {
    pub closed spec fn spec_ty(&self) -> Option<TypeId> {
        self.ty
    }

    pub closed spec fn spec_name(&self) -> Seq<char> {
        self.name@
    }

    pub closed spec fn spec_hash(&self) -> u64 {
        self.hash
    }

    /// The token of `label`, a value of the type called `name`: tagged with
    /// its type, named `name`, hashed from its content.
    pub fn new<T: Hash + 'static>(label: &T, name: &str) -> (r: Self)
        ensures
            r.spec_ty() is Some,
            r.spec_name() == name@,
    {
        let hash = content_hash(label, LABEL_HASH_KEY_1, LABEL_HASH_KEY_2);
        RawLabel::from_parts(Some(TypeId::of::<T>()), name.to_string(), hash)
    }

    /// The token with type tag `ty`, display name `name` and content hash `hash`.
    pub fn from_parts(ty: Option<TypeId>, name: String, hash: u64) -> (r: Self)
        ensures
            r.spec_ty() == ty,
            r.spec_name() == name@,
            r.spec_hash() == hash,
    {
        RawLabel { ty, name, hash }
    }

    /// The type tag, where one was taken.
    pub fn ty(&self) -> (r: Option<TypeId>)
        ensures
            r == self.spec_ty(),
    {
        self.ty
    }

    /// The display name of the label's type.
    pub fn name(&self) -> (r: &String)
        ensures
            r@ == self.spec_name(),
    {
        &self.name
    }

    /// The content hash.
    pub fn hash(&self) -> (r: u64)
        ensures
            r == self.spec_hash(),
    {
        self.hash
    }
}

impl PartialEq for RawLabel {
    fn eq(&self, other: &RawLabel) -> (r: bool) {
        match (self.ty, other.ty) {
            (Some(a), Some(b)) => a == b && self.hash == other.hash,
            _ => self.name == other.name && self.hash == other.hash,
        }
    }
}

impl vstd::std_specs::cmp::PartialEqSpecImpl for RawLabel {
    open spec fn obeys_eq_spec() -> bool {
        true
    }

    open spec fn eq_spec(&self, other: &RawLabel) -> bool {
        label_eq(*self, *other)
    }
}

impl Eq for RawLabel {}

impl PartialOrd for RawLabel {
    fn partial_cmp(&self, other: &RawLabel) -> (r: Option<Ordering>) {
        let same = match (self.ty, other.ty) {
            (Some(a), Some(b)) => a == b,
            _ => self.name == other.name,
        };
        if !same {
            None
        } else if self.hash < other.hash {
            Some(Ordering::Less)
        } else if self.hash == other.hash {
            Some(Ordering::Equal)
        } else {
            Some(Ordering::Greater)
        }
    }
}

impl vstd::std_specs::cmp::PartialOrdSpecImpl for RawLabel {
    open spec fn obeys_partial_cmp_spec() -> bool {
        true
    }

    open spec fn partial_cmp_spec(&self, other: &RawLabel) -> Option<Ordering> {
        label_cmp(*self, *other)
    }
}

/// Feeds the content hash alone: both tiers of `==` demand equal content
/// hashes, so equal tokens always hash alike.
impl Hash for RawLabel {
    fn hash<H: Hasher>(&self, state: &mut H) {
        self.hash.hash(state);
    }
}

/// A value that can name a stage, a coarse-grained step.
pub trait StageLabel {
    /// The stage token that names this value. Unspecified unless an impl
    /// defines it.
    open spec fn stage_token(&self) -> RawStageLabel {
        vstd::pervasive::arbitrary()
    }

    fn raw_label(&self) -> (r: RawStageLabel)
        ensures
            r == self.stage_token(),
    ;
}

/// A token of the stage family. Tokens of different families never compare.
#[derive(Clone, Debug, Hash)]
pub struct RawStageLabel(RawLabel);

impl View for RawStageLabel {
    type V = RawLabel;

    closed spec fn view(&self) -> RawLabel {
        self.0
    }
}

impl RawStageLabel {
    /// Wraps a raw token into this family.
    pub fn from_raw(label: RawLabel) -> (r: Self)
        ensures
            r@ == label,
    {
        RawStageLabel(label)
    }

    /// The raw token inside.
    pub fn raw(&self) -> (r: &RawLabel)
        ensures
            *r == self@,
    {
        &self.0
    }
}

impl From<RawLabel> for RawStageLabel {
    fn from(label: RawLabel) -> (r: Self) {
        RawStageLabel::from_raw(label)
    }
}

impl<T: StageLabel> From<T> for RawStageLabel {
    fn from(label: T) -> (r: Self) {
        label.raw_label()
    }
}

impl<T: StageLabel> vstd::std_specs::convert::FromSpecImpl<T> for RawStageLabel {
    open spec fn obeys_from_spec() -> bool {
        true
    }

    open spec fn from_spec(label: T) -> Self {
        label.stage_token()
    }
}

impl vstd::std_specs::convert::FromSpecImpl<RawLabel> for RawStageLabel {
    open spec fn obeys_from_spec() -> bool {
        true
    }

    closed spec fn from_spec(label: RawLabel) -> Self {
        RawStageLabel(label)
    }
}

impl PartialEq for RawStageLabel {
    fn eq(&self, other: &RawStageLabel) -> (r: bool) {
        self.0 == other.0
    }
}

impl vstd::std_specs::cmp::PartialEqSpecImpl for RawStageLabel {
    open spec fn obeys_eq_spec() -> bool {
        true
    }

    open spec fn eq_spec(&self, other: &RawStageLabel) -> bool {
        label_eq(self@, other@)
    }
}

impl Eq for RawStageLabel {}

impl PartialOrd for RawStageLabel {
    fn partial_cmp(&self, other: &RawStageLabel) -> (r: Option<Ordering>) {
        self.0.partial_cmp(&other.0)
    }
}

impl vstd::std_specs::cmp::PartialOrdSpecImpl for RawStageLabel {
    open spec fn obeys_partial_cmp_spec() -> bool {
        true
    }

    open spec fn partial_cmp_spec(&self, other: &RawStageLabel) -> Option<Ordering> {
        label_cmp(self@, other@)
    }
}

/// A value that can name a phase, a fine-grained step.
pub trait PhaseLabel {
    /// The phase token that names this value. Unspecified unless an impl
    /// defines it.
    open spec fn phase_token(&self) -> RawPhaseLabel {
        vstd::pervasive::arbitrary()
    }

    fn raw_label(&self) -> (r: RawPhaseLabel)
        ensures
            r == self.phase_token(),
    ;
}

/// A token of the phase family. Tokens of different families never compare.
#[derive(Clone, Debug, Hash)]
pub struct RawPhaseLabel(RawLabel);

impl View for RawPhaseLabel {
    type V = RawLabel;

    closed spec fn view(&self) -> RawLabel {
        self.0
    }
}

impl RawPhaseLabel {
    /// Wraps a raw token into this family.
    pub fn from_raw(label: RawLabel) -> (r: Self)
        ensures
            r@ == label,
    {
        RawPhaseLabel(label)
    }

    /// The raw token inside.
    pub fn raw(&self) -> (r: &RawLabel)
        ensures
            *r == self@,
    {
        &self.0
    }
}

impl From<RawLabel> for RawPhaseLabel {
    fn from(label: RawLabel) -> (r: Self) {
        RawPhaseLabel::from_raw(label)
    }
}

impl<T: PhaseLabel> From<T> for RawPhaseLabel {
    fn from(label: T) -> (r: Self) {
        label.raw_label()
    }
}

impl<T: PhaseLabel> vstd::std_specs::convert::FromSpecImpl<T> for RawPhaseLabel {
    open spec fn obeys_from_spec() -> bool {
        true
    }

    open spec fn from_spec(label: T) -> Self {
        label.phase_token()
    }
}

impl vstd::std_specs::convert::FromSpecImpl<RawLabel> for RawPhaseLabel {
    open spec fn obeys_from_spec() -> bool {
        true
    }

    closed spec fn from_spec(label: RawLabel) -> Self {
        RawPhaseLabel(label)
    }
}

impl PartialEq for RawPhaseLabel {
    fn eq(&self, other: &RawPhaseLabel) -> (r: bool) {
        self.0 == other.0
    }
}

impl vstd::std_specs::cmp::PartialEqSpecImpl for RawPhaseLabel {
    open spec fn obeys_eq_spec() -> bool {
        true
    }

    open spec fn eq_spec(&self, other: &RawPhaseLabel) -> bool {
        label_eq(self@, other@)
    }
}

impl Eq for RawPhaseLabel {}

impl PartialOrd for RawPhaseLabel {
    fn partial_cmp(&self, other: &RawPhaseLabel) -> (r: Option<Ordering>) {
        self.0.partial_cmp(&other.0)
    }
}

impl vstd::std_specs::cmp::PartialOrdSpecImpl for RawPhaseLabel {
    open spec fn obeys_partial_cmp_spec() -> bool {
        true
    }

    open spec fn partial_cmp_spec(&self, other: &RawPhaseLabel) -> Option<Ordering> {
        label_cmp(self@, other@)
    }
}

} // verus!
