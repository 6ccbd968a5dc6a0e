//! Canonical symbol identity.
//!
//! A canonical identity is a deterministic, workspace-namespaced projection of a symbol's resolved
//! descriptor, of the form `<workspace>::<package>::<segment>::…[#<rank>]`. It is the join key
//! between the syntax and semantic oracles and the round-trip key handed to consumers.
//!
//! The projection is a function of the workspace identity and the descriptors alone. A `#<rank>`
//! disambiguator is appended only to members of a group whose base projections actually collide;
//! the rank orders the group by descriptor content, then by input position for true duplicates.

use vstd::prelude::*;

use crate::counting::{count_where, lemma_count_where_permutation, lemma_count_where_take};
use crate::order::{
    chars_less, chars_lt, lemma_chars_lt_asymmetric, lemma_chars_lt_irreflexive,
    lemma_chars_lt_total, lemma_chars_lt_transitive,
};
use crate::text::{
    chars_eq, chars_of, decimal, lacks, lemma_decimal_digits, lemma_decimal_injective, push_char,
    push_decimal, push_str,
};

verus! {

/// Identity of the workspace a symbol was indexed under.
#[derive(Debug, PartialEq, Eq, Hash, PartialOrd, Ord)]
pub struct WorkspaceId(String);

impl View for WorkspaceId {
    type V = Seq<char>;

    closed spec fn view(&self) -> Seq<char> {
        self.0@
    }
}

impl Clone for WorkspaceId {
    fn clone(&self) -> (r: Self)
        ensures
            r@ == self@,
    {
        WorkspaceId(self.0.clone())
    }
}

impl WorkspaceId {
    /// Construct a workspace identity.
    pub fn new(id: &str) -> (r: Self)
        ensures
            r@ == id@,
    {
        WorkspaceId(id.to_owned())
    }

    /// The workspace identity as a string slice.
    pub fn as_str(&self) -> (r: &str)
        ensures
            r@ == self@,
    {
        self.0.as_str()
    }
}

/// The role a descriptor segment plays in its path.
#[derive(Debug, Clone, Copy, PartialEq, Eq, Hash, PartialOrd, Ord)]
pub enum SegmentKind {
    /// A namespace or module (package) path element.
    Module,
    /// A type.
    Type,
    /// A term (value, constant, field).
    Term,
    /// A method.
    Method,
    /// A type parameter.
    TypeParameter,
    /// A macro.
    Macro,
    /// A metadata segment.
    Meta,
}

/// The position of a segment kind in declaration order, which is the order the kinds compare in.
pub open spec fn kind_rank(k: SegmentKind) -> nat {
    match k {
        SegmentKind::Module => 0,
        SegmentKind::Type => 1,
        SegmentKind::Term => 2,
        SegmentKind::Method => 3,
        SegmentKind::TypeParameter => 4,
        SegmentKind::Macro => 5,
        SegmentKind::Meta => 6,
    }
}

/// The position of `k` in declaration order.
pub fn kind_position(k: SegmentKind) -> (r: u8)
    ensures
        r == kind_rank(k),
{
    match k {
        SegmentKind::Module => 0,
        SegmentKind::Type => 1,
        SegmentKind::Term => 2,
        SegmentKind::Method => 3,
        SegmentKind::TypeParameter => 4,
        SegmentKind::Macro => 5,
        SegmentKind::Meta => 6,
    }
}

/// A segment as a value: its name's characters and its kind.
pub type SegView = (Seq<char>, SegmentKind);

/// A descriptor as a value: its package's characters and its segments, outermost first.
pub type DescView = (Seq<char>, Seq<SegView>);

/// One segment of a resolved descriptor: a name and the role it plays in the path.
#[derive(Debug, Clone, PartialEq, Eq, Hash, PartialOrd, Ord)]
pub struct DescriptorSegment {
    /// The segment's name token.
    pub name: String,
    /// The role the segment plays.
    pub kind: SegmentKind,
}

impl View for DescriptorSegment {
    type V = SegView;

    open spec fn view(&self) -> SegView {
        (self.name@, self.kind)
    }
}

impl DescriptorSegment {
    /// Construct a descriptor segment.
    pub fn new(name: &str, kind: SegmentKind) -> (r: Self)
        ensures
            r@ == (name@, kind),
    {
        DescriptorSegment { name: name.to_owned(), kind }
    }
}

/// The values of a sequence of segments.
pub open spec fn seg_views(segs: Seq<DescriptorSegment>) -> Seq<SegView> {
    segs.map_values(|s: DescriptorSegment| s@)
}

/// A resolved, engine-neutral descriptor: the ordered path of segments a semantic backend resolved
/// for a global symbol, under its package.
#[derive(Debug, Clone, PartialEq, Eq, Hash, PartialOrd, Ord)]
pub struct Descriptor {
    /// The package the symbol belongs to.
    pub package: String,
    /// The ordered descriptor segments, outermost first.
    pub segments: Vec<DescriptorSegment>,
}

impl View for Descriptor {
    type V = DescView;

    open spec fn view(&self) -> DescView {
        (self.package@, seg_views(self.segments@))
    }
}

/// The values of a sequence of descriptors.
pub open spec fn desc_views(ds: Seq<Descriptor>) -> Seq<DescView> {
    ds.map_values(|d: Descriptor| d@)
}

impl Descriptor {
    /// Construct a descriptor from a package and its ordered segments.
    pub fn new(package: &str, segments: Vec<DescriptorSegment>) -> (r: Self)
        ensures
            r@ == (package@, seg_views(segments@)),
    {
        Descriptor { package: package.to_owned(), segments }
    }

    /// A copy of the descriptor.
    pub fn duplicate(&self) -> (r: Descriptor)
        ensures
            r@ == self@,
    {
        let mut segments: Vec<DescriptorSegment> = Vec::new();
        let mut i: usize = 0;
        while i < self.segments.len()
            invariant
                i <= self.segments.len(),
                segments.len() == i,
                seg_views(segments@) == seg_views(self.segments@).take(i as int),
            decreases self.segments.len() - i,
        {
            let s = &self.segments[i];
            let ghost before = segments@;
            segments.push(DescriptorSegment::new(s.name.as_str(), s.kind));
            assert(segments@[i as int]@ == self.segments@[i as int]@);
            assert(seg_views(segments@) =~= seg_views(self.segments@).take(i + 1)) by {
                assert forall|x: int| 0 <= x < i + 1 implies seg_views(segments@)[x] == seg_views(self.segments@).take(i + 1)[x] by {
                    if x < i {
                        assert(segments@[x] == before[x]);
                        assert(seg_views(before)[x] == seg_views(self.segments@).take(i as int)[x]);
                    }
                }
            }
            i = i + 1;
        }
        assert(seg_views(self.segments@).take(self.segments.len() as int) =~= seg_views(self.segments@));
        Descriptor { package: self.package.clone(), segments }
    }

    /// Whether two descriptors are the same: the same package and the same segments in order.
    pub fn same_as(&self, other: &Descriptor) -> (r: bool)
        ensures
            r == (self@ == other@),
    {
        if !crate::text::str_eq(self.package.as_str(), other.package.as_str()) {
            return false;
        }
        if self.segments.len() != other.segments.len() {
            proof {
                assert(seg_views(self.segments@).len() != seg_views(other.segments@).len());
            }
            return false;
        }
        let mut i: usize = 0;
        while i < self.segments.len()
            invariant
                i <= self.segments.len(),
                self.segments.len() == other.segments.len(),
                forall|j: int| 0 <= j < i ==> self.segments@[j]@ == other.segments@[j]@,
            decreases self.segments.len() - i,
        {
            let a = &self.segments[i];
            let b = &other.segments[i];
            if !crate::text::str_eq(a.name.as_str(), b.name.as_str()) || kind_position(a.kind) != kind_position(b.kind) {
                proof {
                    assert(seg_views(self.segments@)[i as int] != seg_views(other.segments@)[i as int]);
                }
                return false;
            }
            i = i + 1;
        }
        proof {
            assert(seg_views(self.segments@) =~= seg_views(other.segments@));
        }
        true
    }

    /// The terminal segment's name, which is the name token a semantic occurrence covers; `None`
    /// for a descriptor with no segments.
    pub fn terminal_name(&self) -> (r: Option<&str>)
        ensures
            self.segments.len() == 0 ==> r.is_none(),
            self.segments.len() > 0 ==> r.is_some() && r.unwrap()@ == self@.1.last().0,
    {
        let n = self.segments.len();
        if n == 0 {
            None
        } else {
            Some(self.segments[n - 1].name.as_str())
        }
    }
}

/// A canonical, workspace-namespaced symbol identity.
#[derive(Debug, PartialEq, Eq, Hash, PartialOrd, Ord)]
pub struct CanonicalId(String);

impl View for CanonicalId {
    type V = Seq<char>;

    closed spec fn view(&self) -> Seq<char> {
        self.0@
    }
}

impl Clone for CanonicalId {
    fn clone(&self) -> (r: Self)
        ensures
            r@ == self@,
    {
        CanonicalId(self.0.clone())
    }
}

impl CanonicalId {
    /// Wrap an already-formed canonical identity string.
    pub fn from_raw(raw: &str) -> (r: Self)
        ensures
            r@ == raw@,
    {
        CanonicalId(raw.to_owned())
    }

    /// Wrap an owned identity string.
    pub fn from_string(raw: String) -> (r: Self)
        ensures
            r@ == raw@,
    {
        CanonicalId(raw)
    }

    /// The identity as a string slice.
    pub fn as_str(&self) -> (r: &str)
        ensures
            r@ == self@,
    {
        self.0.as_str()
    }

    /// A human-readable rendering: the identity string itself.
    pub fn to_display_string(&self) -> (r: String)
        ensures
            r@ == self@,
    {
        self.0.clone()
    }
}

/// The `::` separator.
pub open spec fn sep() -> Seq<char> {
    seq![':', ':']
}

/// The segment names joined, each preceded by `::`.
pub open spec fn path_body(segs: Seq<SegView>) -> Seq<char>
    decreases segs.len(),
{
    if segs.len() == 0 {
        Seq::empty()
    } else {
        path_body(segs.drop_last()) + sep() + segs.last().0
    }
}

/// The base projection of a descriptor under a workspace: workspace, package and segment names
/// joined by `::`, before any collision disambiguation.
pub open spec fn base_of(ws: Seq<char>, d: DescView) -> Seq<char> {
    ws + sep() + d.0 + path_body(d.1)
}

/// The base projection of one descriptor: `<workspace>::<package>(::<segment>)*`.
fn base_projection(workspace: &WorkspaceId, descriptor: &Descriptor) -> (r: String)
    ensures
        r@ == base_of(workspace@, descriptor@),
{
    let mut out = String::new();
    push_str(&mut out, workspace.as_str());
    push_char(&mut out, ':');
    push_char(&mut out, ':');
    push_str(&mut out, descriptor.package.as_str());
    proof {
        assert(out@ == workspace@ + sep() + descriptor@.0);
        assert(descriptor@.1.take(0) == Seq::<SegView>::empty());
    }
    let n = descriptor.segments.len();
    let mut i: usize = 0;
    while i < n
        invariant
            n == descriptor.segments.len(),
            i <= n,
            out@ == workspace@ + sep() + descriptor@.0 + path_body(descriptor@.1.take(i as int)),
        decreases n - i,
    {
        push_char(&mut out, ':');
        push_char(&mut out, ':');
        push_str(&mut out, descriptor.segments[i].name.as_str());
        proof {
            let segs = descriptor@.1;
            assert(segs.take(i + 1).drop_last() == segs.take(i as int));
            assert(segs.take(i + 1).last() == segs[i as int]);
            assert(segs[i as int].0 == descriptor.segments@[i as int].name@);
        }
        i = i + 1;
    }
    proof {
        assert(descriptor@.1.take(n as int) == descriptor@.1);
    }
    out
}

/// Segment order: by name, then by kind.
pub open spec fn seg_lt(x: SegView, y: SegView) -> bool {
    chars_lt(x.0, y.0) || (x.0 == y.0 && kind_rank(x.1) < kind_rank(y.1))
}

/// Lexicographic order over segment sequences.
pub open spec fn segs_lt(a: Seq<SegView>, b: Seq<SegView>) -> bool
    decreases a.len(),
{
    if a.len() == 0 {
        b.len() > 0
    } else if b.len() == 0 {
        false
    } else if a[0] != b[0] {
        seg_lt(a[0], b[0])
    } else {
        segs_lt(a.drop_first(), b.drop_first())
    }
}

/// Descriptor order: by package, then by segments — the order the descriptor's fields compare in.
pub open spec fn desc_lt(x: DescView, y: DescView) -> bool {
    chars_lt(x.0, y.0) || (x.0 == y.0 && segs_lt(x.1, y.1))
}

/// A segment held as characters, for comparison.
struct SegmentKey {
    name: Vec<char>,
    kind: SegmentKind,
}

impl View for SegmentKey {
    type V = SegView;

    closed spec fn view(&self) -> SegView {
        (self.name@, self.kind)
    }
}

/// A descriptor held as characters, for comparison.
struct DescriptorKey {
    package: Vec<char>,
    segments: Vec<SegmentKey>,
}

impl View for DescriptorKey {
    type V = DescView;

    closed spec fn view(&self) -> DescView {
        (self.package@, self.segments@.map_values(|s: SegmentKey| s@))
    }
}

/// The comparison key of a descriptor.
fn key_of(d: &Descriptor) -> (r: DescriptorKey)
    ensures
        r@ == d@,
{
    let package = chars_of(d.package.as_str());
    let mut segments: Vec<SegmentKey> = Vec::new();
    let n = d.segments.len();
    let mut i: usize = 0;
    while i < n
        invariant
            n == d.segments.len(),
            i <= n,
            segments.len() == i,
            forall|k: int| 0 <= k < i ==> (#[trigger] segments@[k])@ == d.segments@[k]@,
        decreases n - i,
    {
        let name = chars_of(d.segments[i].name.as_str());
        segments.push(SegmentKey { name, kind: d.segments[i].kind });
        i = i + 1;
    }
    let r = DescriptorKey { package, segments };
    proof {
        assert(r@.1 =~= d@.1);
    }
    r
}

/// Whether two segments are equal as values.
fn seg_key_eq(x: &SegmentKey, y: &SegmentKey) -> (r: bool)
    ensures
        r == (x@ == y@),
{
    let same_name = chars_eq(&x.name, &y.name);
    let same_kind = kind_position(x.kind) == kind_position(y.kind);
    proof {
        if same_kind {
            lemma_kind_rank_injective(x.kind, y.kind);
        }
    }
    same_name && same_kind
}

/// Whether segment `x` precedes segment `y`.
fn seg_key_less(x: &SegmentKey, y: &SegmentKey) -> (r: bool)
    ensures
        r == seg_lt(x@, y@),
{
    if chars_less(&x.name, &y.name) {
        return true;
    }
    chars_eq(&x.name, &y.name) && kind_position(x.kind) < kind_position(y.kind)
}

/// Whether the segment sequence `a` precedes `b`.
fn segs_less(a: &Vec<SegmentKey>, b: &Vec<SegmentKey>) -> (r: bool)
    ensures
        r == segs_lt(a@.map_values(|s: SegmentKey| s@), b@.map_values(|s: SegmentKey| s@)),
{
    let ghost av = a@.map_values(|s: SegmentKey| s@);
    let ghost bv = b@.map_values(|s: SegmentKey| s@);
    let mut i: usize = 0;
    assert(av.skip(0) == av);
    assert(bv.skip(0) == bv);
    while i < a.len() && i < b.len()
        invariant
            av == a@.map_values(|s: SegmentKey| s@),
            bv == b@.map_values(|s: SegmentKey| s@),
            i <= a.len(),
            i <= b.len(),
            segs_lt(av, bv) == segs_lt(av.skip(i as int), bv.skip(i as int)),
        decreases a.len() - i,
    {
        if !seg_key_eq(&a[i], &b[i]) {
            assert(av.skip(i as int)[0] == av[i as int]);
            assert(bv.skip(i as int)[0] == bv[i as int]);
            return seg_key_less(&a[i], &b[i]);
        }
        assert(av.skip(i as int).drop_first() == av.skip(i + 1));
        assert(bv.skip(i as int).drop_first() == bv.skip(i + 1));
        i = i + 1;
    }
    assert(av.skip(i as int).len() == a.len() - i);
    assert(bv.skip(i as int).len() == b.len() - i);
    i >= a.len() && i < b.len()
}

/// Whether two segment sequences are equal as values.
fn segs_eq(a: &Vec<SegmentKey>, b: &Vec<SegmentKey>) -> (r: bool)
    ensures
        r == (a@.map_values(|s: SegmentKey| s@) == b@.map_values(|s: SegmentKey| s@)),
{
    let ghost av = a@.map_values(|s: SegmentKey| s@);
    let ghost bv = b@.map_values(|s: SegmentKey| s@);
    if a.len() != b.len() {
        assert(av.len() != bv.len());
        return false;
    }
    let mut i: usize = 0;
    while i < a.len()
        invariant
            av == a@.map_values(|s: SegmentKey| s@),
            bv == b@.map_values(|s: SegmentKey| s@),
            a.len() == b.len(),
            i <= a.len(),
            forall|k: int| 0 <= k < i ==> av[k] == bv[k],
        decreases a.len() - i,
    {
        if !seg_key_eq(&a[i], &b[i]) {
            assert(av[i as int] != bv[i as int]);
            return false;
        }
        i = i + 1;
    }
    assert(av =~= bv);
    true
}

/// Whether descriptor `x` precedes descriptor `y`.
fn key_less(x: &DescriptorKey, y: &DescriptorKey) -> (r: bool)
    ensures
        r == desc_lt(x@, y@),
{
    if chars_less(&x.package, &y.package) {
        return true;
    }
    chars_eq(&x.package, &y.package) && segs_less(&x.segments, &y.segments)
}

/// Whether two descriptors are equal as values.
fn key_eq(x: &DescriptorKey, y: &DescriptorKey) -> (r: bool)
    ensures
        r == (x@ == y@),
{
    chars_eq(&x.package, &y.package) && segs_eq(&x.segments, &y.segments)
}

/// Distinct kinds have distinct positions.
pub proof fn lemma_kind_rank_injective(a: SegmentKind, b: SegmentKind)
    requires
        kind_rank(a) == kind_rank(b),
    ensures
        a == b,
{
}

/// Whether `ds[j]` is ranked before `ds[i]` within a collision group: by descriptor order, then
/// by position for equal descriptors.
pub open spec fn ranked_before(ds: Seq<DescView>, j: int, i: int) -> bool {
    desc_lt(ds[j], ds[i]) || (ds[j] == ds[i] && j < i)
}

/// Whether `ds[j]` has the same base projection as `ds[i]`.
pub open spec fn shares_base(ws: Seq<char>, ds: Seq<DescView>, i: int, j: int) -> bool {
    base_of(ws, ds[j]) == base_of(ws, ds[i])
}

/// How many of the first `n` descriptors share `ds[i]`'s base projection.
pub open spec fn group_size(ws: Seq<char>, ds: Seq<DescView>, i: int, n: int) -> nat
    decreases n,
{
    if n <= 0 {
        0
    } else {
        group_size(ws, ds, i, n - 1) + if shares_base(ws, ds, i, n - 1) {
            1nat
        } else {
            0nat
        }
    }
}

/// How many of the first `n` descriptors share `ds[i]`'s base projection and rank before it.
pub open spec fn collision_rank(ws: Seq<char>, ds: Seq<DescView>, i: int, n: int) -> nat
    decreases n,
{
    if n <= 0 {
        0
    } else {
        collision_rank(ws, ds, i, n - 1) + if shares_base(ws, ds, i, n - 1) && ranked_before(
            ds,
            n - 1,
            i,
        ) {
            1nat
        } else {
            0nat
        }
    }
}

/// The canonical identity of `ds[i]` projected together with all of `ds`: its base projection
/// when no other descriptor shares it, otherwise the base followed by `#` and the descriptor's
/// rank within its collision group.
pub open spec fn identity_of(ws: Seq<char>, ds: Seq<DescView>, i: int) -> Seq<char> {
    let base = base_of(ws, ds[i]);
    if group_size(ws, ds, i, ds.len() as int) == 1 {
        base
    } else {
        base + seq!['#'] + decimal(collision_rank(ws, ds, i, ds.len() as int))
    }
}

/// Project descriptors to canonical identities within one workspace, disambiguating only the
/// groups whose base projections collide. The result is in input order.
pub fn project_all(workspace: &WorkspaceId, descriptors: &[Descriptor]) -> (ids: Vec<CanonicalId>)
    ensures
        ids.len() == descriptors.len(),
        forall|i: int|
            0 <= i < descriptors.len() ==> (#[trigger] ids@[i])@ == identity_of(
                workspace@,
                desc_views(descriptors@),
                i,
            ),
{
    let n = descriptors.len();
    let ghost ws = workspace@;
    let ghost ds = desc_views(descriptors@);
    let mut bases: Vec<String> = Vec::new();
    let mut keys: Vec<DescriptorKey> = Vec::new();
    let mut i: usize = 0;
    while i < n
        invariant
            n == descriptors.len(),
            ds == desc_views(descriptors@),
            ws == workspace@,
            i <= n,
            bases.len() == i,
            keys.len() == i,
            forall|k: int| 0 <= k < i ==> (#[trigger] bases@[k])@ == base_of(ws, ds[k]),
            forall|k: int| 0 <= k < i ==> (#[trigger] keys@[k])@ == ds[k],
        decreases n - i,
    {
        bases.push(base_projection(workspace, &descriptors[i]));
        keys.push(key_of(&descriptors[i]));
        i = i + 1;
    }
    let mut ids: Vec<CanonicalId> = Vec::new();
    let mut i: usize = 0;
    while i < n
        invariant
            n == descriptors.len(),
            ds == desc_views(descriptors@),
            ws == workspace@,
            ds.len() == n,
            i <= n,
            bases.len() == n,
            keys.len() == n,
            forall|k: int| 0 <= k < n ==> (#[trigger] bases@[k])@ == base_of(ws, ds[k]),
            forall|k: int| 0 <= k < n ==> (#[trigger] keys@[k])@ == ds[k],
            ids.len() == i,
            forall|k: int| 0 <= k < i ==> (#[trigger] ids@[k])@ == identity_of(ws, ds, k),
        decreases n - i,
    {
        let mut size: usize = 0;
        let mut rank: usize = 0;
        let mut j: usize = 0;
        while j < n
            invariant
                n == descriptors.len(),
                ds.len() == n,
                i < n,
                j <= n,
                bases.len() == n,
                keys.len() == n,
                forall|k: int| 0 <= k < n ==> (#[trigger] bases@[k])@ == base_of(ws, ds[k]),
                forall|k: int| 0 <= k < n ==> (#[trigger] keys@[k])@ == ds[k],
                size == group_size(ws, ds, i as int, j as int),
                rank == collision_rank(ws, ds, i as int, j as int),
                size <= j,
                rank <= j,
            decreases n - j,
        {
            if bases[j] == bases[i] {
                size = size + 1;
                if key_less(&keys[j], &keys[i]) || (j < i && key_eq(&keys[j], &keys[i])) {
                    rank = rank + 1;
                }
            }
            j = j + 1;
        }
        let mut id = bases[i].clone();
        if size != 1 {
            push_char(&mut id, '#');
            push_decimal(&mut id, rank as u64);
        }
        ids.push(CanonicalId(id));
        i = i + 1;
    }
    ids
}

/// Project a single descriptor with no collision context: its base projection.
pub fn project_one(workspace: &WorkspaceId, descriptor: &Descriptor) -> (id: CanonicalId)
    ensures
        id@ == base_of(workspace@, descriptor@),
{
    CanonicalId(base_projection(workspace, descriptor))
}

// ---------------------------------------------------------------------------------------------
// The descriptor order is a strict total order.
// ---------------------------------------------------------------------------------------------

proof fn lemma_seg_lt_order(x: SegView, y: SegView, z: SegView)
    ensures
        !seg_lt(x, x),
        seg_lt(x, y) ==> !seg_lt(y, x),
        seg_lt(x, y) && seg_lt(y, z) ==> seg_lt(x, z),
        x != y ==> seg_lt(x, y) || seg_lt(y, x),
{
    lemma_chars_lt_irreflexive(x.0);
    if chars_lt(x.0, y.0) {
        lemma_chars_lt_asymmetric(x.0, y.0);
    }
    if chars_lt(x.0, y.0) && chars_lt(y.0, z.0) {
        lemma_chars_lt_transitive(x.0, y.0, z.0);
    }
    if x.0 != y.0 {
        lemma_chars_lt_total(x.0, y.0);
    } else if x.1 != y.1 {
        if kind_rank(x.1) == kind_rank(y.1) {
            lemma_kind_rank_injective(x.1, y.1);
        }
    }
}

proof fn lemma_segs_lt_irreflexive(a: Seq<SegView>)
    ensures
        !segs_lt(a, a),
    decreases a.len(),
{
    if a.len() > 0 {
        lemma_segs_lt_irreflexive(a.drop_first());
    }
}

proof fn lemma_segs_lt_asymmetric(a: Seq<SegView>, b: Seq<SegView>)
    requires
        segs_lt(a, b),
    ensures
        !segs_lt(b, a),
    decreases a.len(),
{
    if a.len() > 0 && b.len() > 0 {
        if a[0] == b[0] {
            lemma_segs_lt_asymmetric(a.drop_first(), b.drop_first());
        } else {
            lemma_seg_lt_order(a[0], b[0], b[0]);
        }
    }
}

proof fn lemma_segs_lt_transitive(a: Seq<SegView>, b: Seq<SegView>, c: Seq<SegView>)
    requires
        segs_lt(a, b),
        segs_lt(b, c),
    ensures
        segs_lt(a, c),
    decreases a.len(),
{
    if a.len() > 0 && b.len() > 0 && c.len() > 0 {
        lemma_seg_lt_order(a[0], b[0], c[0]);
        lemma_seg_lt_order(b[0], c[0], a[0]);
        lemma_seg_lt_order(c[0], a[0], b[0]);
        if a[0] == b[0] && b[0] == c[0] {
            lemma_segs_lt_transitive(a.drop_first(), b.drop_first(), c.drop_first());
        }
    }
}

proof fn lemma_segs_lt_total(a: Seq<SegView>, b: Seq<SegView>)
    requires
        a != b,
    ensures
        segs_lt(a, b) || segs_lt(b, a),
    decreases a.len(),
{
    if a.len() > 0 && b.len() > 0 {
        if a[0] == b[0] {
            if a.drop_first() == b.drop_first() {
                assert(a =~= seq![a[0]] + a.drop_first());
                assert(b =~= seq![b[0]] + b.drop_first());
            }
            lemma_segs_lt_total(a.drop_first(), b.drop_first());
        } else {
            lemma_seg_lt_order(a[0], b[0], b[0]);
        }
    } else if a.len() == 0 && b.len() == 0 {
        assert(a =~= b);
    }
}

/// The descriptor order is irreflexive, asymmetric, transitive and total on distinct values.
pub proof fn lemma_desc_lt_order(x: DescView, y: DescView, z: DescView)
    ensures
        !desc_lt(x, x),
        desc_lt(x, y) ==> !desc_lt(y, x),
        desc_lt(x, y) && desc_lt(y, z) ==> desc_lt(x, z),
        x != y ==> desc_lt(x, y) || desc_lt(y, x),
{
    lemma_chars_lt_irreflexive(x.0);
    lemma_segs_lt_irreflexive(x.1);
    if chars_lt(x.0, y.0) {
        lemma_chars_lt_asymmetric(x.0, y.0);
    }
    if x.0 == y.0 && segs_lt(x.1, y.1) {
        lemma_segs_lt_asymmetric(x.1, y.1);
    }
    if desc_lt(x, y) && desc_lt(y, z) {
        if chars_lt(x.0, y.0) && chars_lt(y.0, z.0) {
            lemma_chars_lt_transitive(x.0, y.0, z.0);
        }
        if x.0 == y.0 && y.0 == z.0 {
            lemma_segs_lt_transitive(x.1, y.1, z.1);
        }
    }
    if x != y {
        if x.0 != y.0 {
            lemma_chars_lt_total(x.0, y.0);
        } else {
            lemma_segs_lt_total(x.1, y.1);
        }
    }
}

// ---------------------------------------------------------------------------------------------
// Collision groups and ranks.
// ---------------------------------------------------------------------------------------------

/// Whether a descriptor value has the base projection `base` under `ws`.
pub open spec fn has_base(ws: Seq<char>, base: Seq<char>) -> spec_fn(DescView) -> bool {
    |v: DescView| base_of(ws, v) == base
}

/// Whether a descriptor value has base projection `base` and precedes `d` in descriptor order.
pub open spec fn has_base_before(ws: Seq<char>, base: Seq<char>, d: DescView) -> spec_fn(
    DescView,
) -> bool {
    |v: DescView| base_of(ws, v) == base && desc_lt(v, d)
}

/// The group size counts the prefix's elements sharing the base projection.
proof fn lemma_group_size_counts(ws: Seq<char>, ds: Seq<DescView>, i: int, n: int)
    requires
        0 <= i < ds.len(),
        0 <= n <= ds.len(),
    ensures
        group_size(ws, ds, i, n) == count_where(ds.take(n), has_base(ws, base_of(ws, ds[i]))),
    decreases n,
{
    if n == 0 {
        assert(ds.take(0) =~= Seq::<DescView>::empty());
    } else {
        lemma_group_size_counts(ws, ds, i, n - 1);
        lemma_count_where_take(ds, n, has_base(ws, base_of(ws, ds[i])));
    }
}

/// Over distinct descriptors, the collision rank counts the prefix's elements sharing the base
/// projection and preceding the descriptor in descriptor order.
proof fn lemma_collision_rank_counts(ws: Seq<char>, ds: Seq<DescView>, i: int, n: int)
    requires
        ds.no_duplicates(),
        0 <= i < ds.len(),
        0 <= n <= ds.len(),
    ensures
        collision_rank(ws, ds, i, n) == count_where(
            ds.take(n),
            has_base_before(ws, base_of(ws, ds[i]), ds[i]),
        ),
    decreases n,
{
    if n == 0 {
        assert(ds.take(0) =~= Seq::<DescView>::empty());
    } else {
        lemma_collision_rank_counts(ws, ds, i, n - 1);
        lemma_count_where_take(ds, n, has_base_before(ws, base_of(ws, ds[i]), ds[i]));
        if ds[n - 1] == ds[i] && n - 1 < i {
            assert(false);
        }
    }
}

/// Every member of a collision group has the same group size.
proof fn lemma_group_size_shared(ws: Seq<char>, ds: Seq<DescView>, i: int, j: int, n: int)
    requires
        0 <= i < ds.len(),
        0 <= j < ds.len(),
        base_of(ws, ds[i]) == base_of(ws, ds[j]),
    ensures
        group_size(ws, ds, i, n) == group_size(ws, ds, j, n),
    decreases n,
{
    if n > 0 {
        lemma_group_size_shared(ws, ds, i, j, n - 1);
    }
}

/// A group holding two distinct positions below `n` has at least two members below `n`.
proof fn lemma_group_size_lower(ws: Seq<char>, ds: Seq<DescView>, i: int, j: int, n: int)
    requires
        0 <= i < ds.len(),
        0 <= j < ds.len(),
        base_of(ws, ds[i]) == base_of(ws, ds[j]),
        n <= ds.len(),
    ensures
        group_size(ws, ds, i, n) >= (if i < n { 1int } else { 0int }) + (if j < n && j != i {
            1int
        } else {
            0int
        }),
    decreases n,
{
    if n > 0 {
        lemma_group_size_lower(ws, ds, i, j, n - 1);
    }
}

/// Within a collision group, a member ranked before another has a strictly smaller rank.
proof fn lemma_collision_rank_increases(ws: Seq<char>, ds: Seq<DescView>, i: int, j: int, n: int)
    requires
        0 <= i < ds.len(),
        0 <= j < ds.len(),
        i != j,
        base_of(ws, ds[i]) == base_of(ws, ds[j]),
        ranked_before(ds, i, j),
        n <= ds.len(),
    ensures
        collision_rank(ws, ds, j, n) >= collision_rank(ws, ds, i, n) + if i < n {
            1int
        } else {
            0int
        },
    decreases n,
{
    if n > 0 {
        lemma_collision_rank_increases(ws, ds, i, j, n - 1);
        let m = n - 1;
        lemma_desc_lt_order(ds[m], ds[i], ds[j]);
        lemma_desc_lt_order(ds[i], ds[i], ds[i]);
        if shares_base(ws, ds, i, m) && ranked_before(ds, m, i) {
            assert(shares_base(ws, ds, j, m));
            assert(ranked_before(ds, m, j));
        }
        if m == i {
            assert(shares_base(ws, ds, j, m));
            assert(!ranked_before(ds, m, i));
        }
    }
}

/// The pieces of a base projection lacking `#` make a base projection lacking `#`.
proof fn lemma_path_body_lacks(segs: Seq<SegView>, c: char)
    requires
        c != ':',
        forall|k: int| 0 <= k < segs.len() ==> lacks(#[trigger] segs[k].0, c),
    ensures
        lacks(path_body(segs), c),
    decreases segs.len(),
{
    if segs.len() > 0 {
        lemma_path_body_lacks(segs.drop_last(), c);
        let p = path_body(segs.drop_last());
        let l = segs.last().0;
        assert(lacks(l, c));
        assert(path_body(segs) == p + sep() + l);
        assert forall|k: int| 0 <= k < path_body(segs).len() implies path_body(segs)[k] != c by {
            if k < p.len() {
                assert(path_body(segs)[k] == p[k]);
            } else if k < p.len() + 2 {
            } else {
                assert(path_body(segs)[k] == l[k - p.len() - 2]);
            }
        }
    }
}

/// Whether a workspace and a descriptor spell no `#` in any name.
pub open spec fn hash_free(ws: Seq<char>, d: DescView) -> bool {
    &&& lacks(ws, '#')
    &&& lacks(d.0, '#')
    &&& forall|k: int| 0 <= k < d.1.len() ==> lacks(#[trigger] d.1[k].0, '#')
}

proof fn lemma_base_lacks_hash(ws: Seq<char>, d: DescView)
    requires
        hash_free(ws, d),
    ensures
        lacks(base_of(ws, d), '#'),
{
    lemma_path_body_lacks(d.1, '#');
    let a = ws;
    let b = sep();
    let c = d.0;
    let e = path_body(d.1);
    let full = a + b + c + e;
    assert(full == base_of(ws, d));
    assert forall|k: int| 0 <= k < full.len() implies full[k] != '#' by {
        if k < a.len() {
            assert(full[k] == a[k]);
        } else if k < a.len() + 2 {
        } else if k < a.len() + 2 + c.len() {
            assert(full[k] == c[k - a.len() - 2]);
        } else {
            assert(full[k] == e[k - a.len() - 2 - c.len()]);
        }
    }
}

/// A `#` after a `#`-free prefix marks where the prefix ends.
proof fn lemma_hash_split(x: Seq<char>, y: Seq<char>, a: Seq<char>, b: Seq<char>)
    requires
        lacks(x, '#'),
        lacks(y, '#'),
        x + seq!['#'] + a == y + seq!['#'] + b,
    ensures
        x == y,
        a == b,
{
    let l = x + seq!['#'] + a;
    let r = y + seq!['#'] + b;
    if x.len() < y.len() {
        assert(l[x.len() as int] == '#');
        assert(r[x.len() as int] == y[x.len() as int]);
    } else if y.len() < x.len() {
        assert(r[y.len() as int] == '#');
        assert(l[y.len() as int] == x[y.len() as int]);
    } else {
        assert(x =~= l.take(x.len() as int));
        assert(y =~= r.take(y.len() as int));
        assert(a =~= l.skip(x.len() as int + 1));
        assert(b =~= r.skip(y.len() as int + 1));
    }
}

/// A sequence with `#` appended after a prefix does not lack `#`.
proof fn lemma_suffixed_has_hash(x: Seq<char>, a: Seq<char>)
    ensures
        !lacks(x + seq!['#'] + a, '#'),
{
    assert((x + seq!['#'] + a)[x.len() as int] == '#');
}

// ---------------------------------------------------------------------------------------------
// Laws of the projection.
// ---------------------------------------------------------------------------------------------

/// Projecting the same workspace and descriptors twice gives the same identities.
pub proof fn lemma_projection_deterministic(
    ws1: Seq<char>,
    ds1: Seq<DescView>,
    ws2: Seq<char>,
    ds2: Seq<DescView>,
    i: int,
)
    requires
        ws1 == ws2,
        ds1 == ds2,
        0 <= i < ds1.len(),
    ensures
        identity_of(ws1, ds1, i) == identity_of(ws2, ds2, i),
{
}

/// The order in which distinct descriptors are visited does not change any identity: when two
/// descriptor sequences hold the same distinct descriptors in any order, a descriptor receives the
/// same identity in both.
pub proof fn lemma_projection_order_independent(
    ws: Seq<char>,
    a: Seq<DescView>,
    b: Seq<DescView>,
    i: int,
    k: int,
)
    requires
        a.no_duplicates(),
        a.to_multiset() == b.to_multiset(),
        0 <= i < a.len(),
        0 <= k < b.len(),
        a[i] == b[k],
    ensures
        identity_of(ws, a, i) == identity_of(ws, b, k),
{
    broadcast use vstd::seq_lib::group_to_multiset_ensures;

    a.lemma_multiset_has_no_duplicates();
    b.lemma_multiset_has_no_duplicates_conv();
    a.to_multiset_ensures();
    b.to_multiset_ensures();
    assert(a.len() == b.len());
    let base = base_of(ws, a[i]);
    assert(a.take(a.len() as int) =~= a);
    assert(b.take(b.len() as int) =~= b);
    lemma_group_size_counts(ws, a, i, a.len() as int);
    lemma_group_size_counts(ws, b, k, b.len() as int);
    lemma_count_where_permutation(a, b, has_base(ws, base));
    lemma_collision_rank_counts(ws, a, i, a.len() as int);
    lemma_collision_rank_counts(ws, b, k, b.len() as int);
    lemma_count_where_permutation(a, b, has_base_before(ws, base, a[i]));
}

/// Within a workspace, two positions never receive the same identity, provided no workspace,
/// package or segment name spells the disambiguator character `#`.
pub proof fn lemma_projection_unique(ws: Seq<char>, ds: Seq<DescView>, i: int, j: int)
    requires
        0 <= i < ds.len(),
        0 <= j < ds.len(),
        i != j,
        forall|k: int| 0 <= k < ds.len() ==> hash_free(ws, #[trigger] ds[k]),
    ensures
        identity_of(ws, ds, i) != identity_of(ws, ds, j),
{
    let n = ds.len() as int;
    let bi = base_of(ws, ds[i]);
    let bj = base_of(ws, ds[j]);
    assert(hash_free(ws, ds[i]));
    assert(hash_free(ws, ds[j]));
    lemma_base_lacks_hash(ws, ds[i]);
    lemma_base_lacks_hash(ws, ds[j]);
    let ri = collision_rank(ws, ds, i, n);
    let rj = collision_rank(ws, ds, j, n);
    if bi == bj {
        lemma_group_size_lower(ws, ds, i, j, n);
        lemma_group_size_shared(ws, ds, i, j, n);
        lemma_desc_lt_order(ds[i], ds[j], ds[i]);
        if ranked_before(ds, i, j) {
            lemma_collision_rank_increases(ws, ds, i, j, n);
        } else {
            assert(ranked_before(ds, j, i));
            lemma_collision_rank_increases(ws, ds, j, i, n);
        }
        if identity_of(ws, ds, i) == identity_of(ws, ds, j) {
            lemma_hash_split(bi, bj, decimal(ri), decimal(rj));
            lemma_decimal_injective(ri, rj);
        }
    } else {
        let si = group_size(ws, ds, i, n) == 1;
        let sj = group_size(ws, ds, j, n) == 1;
        if identity_of(ws, ds, i) == identity_of(ws, ds, j) {
            if si && !sj {
                lemma_suffixed_has_hash(bj, decimal(rj));
            } else if !si && sj {
                lemma_suffixed_has_hash(bi, decimal(ri));
            } else if !si && !sj {
                lemma_hash_split(bi, bj, decimal(ri), decimal(rj));
            }
        }
    }
}

/// A disambiguator is appended exactly to the members of a colliding group: an identity spells
/// `#` if and only if another descriptor shares its base projection (names spelling no `#`).
pub proof fn lemma_suffix_only_on_collision(ws: Seq<char>, ds: Seq<DescView>, i: int)
    requires
        0 <= i < ds.len(),
        hash_free(ws, ds[i]),
    ensures
        lacks(identity_of(ws, ds, i), '#') <==> group_size(ws, ds, i, ds.len() as int) == 1,
        group_size(ws, ds, i, ds.len() as int) == 1 ==> identity_of(ws, ds, i) == base_of(
            ws,
            ds[i],
        ),
{
    lemma_base_lacks_hash(ws, ds[i]);
    if group_size(ws, ds, i, ds.len() as int) != 1 {
        lemma_suffixed_has_hash(
            base_of(ws, ds[i]),
            decimal(collision_rank(ws, ds, i, ds.len() as int)),
        );
    }
}

/// Identical descriptors projected under two different workspaces are distinct.
pub proof fn lemma_workspaces_namespace_identities(wa: Seq<char>, wb: Seq<char>, d: DescView)
    requires
        wa != wb,
    ensures
        base_of(wa, d) != base_of(wb, d),
{
    let tail = sep() + d.0 + path_body(d.1);
    assert(base_of(wa, d) =~= wa + tail);
    assert(base_of(wb, d) =~= wb + tail);
    if base_of(wa, d) == base_of(wb, d) {
        assert(wa =~= (wa + tail).take(wa.len() as int));
        assert(wb =~= (wb + tail).take(wb.len() as int));
    }
}

/// The descriptors present in a list, in order.
pub open spec fn present_descriptors(ds: Seq<Option<Descriptor>>) -> Seq<DescView>
    decreases ds.len(),
{
    if ds.len() == 0 {
        Seq::empty()
    } else if ds.last() is Some {
        present_descriptors(ds.drop_last()).push(ds.last().unwrap()@)
    } else {
        present_descriptors(ds.drop_last())
    }
}

/// Project identities for an index's symbols: `descriptors[i]` is symbol `i`'s descriptor, `None`
/// for a local symbol or one without a descriptor, which receives no identity. The others are
/// projected together, so collisions among them are disambiguated.
pub fn project_identities(workspace: &WorkspaceId, descriptors: &[Option<Descriptor>]) -> (r: Vec<Option<CanonicalId>>)
    ensures
        r.len() == descriptors.len(),
        forall|i: int| 0 <= i < descriptors.len() ==> ((#[trigger] r@[i]) is None <==> descriptors@[i] is None),
        forall|i: int|
            0 <= i < descriptors.len() && descriptors@[i] is Some ==> (#[trigger] r@[i]).unwrap()@ == identity_of(
                workspace@,
                present_descriptors(descriptors@),
                present_descriptors(descriptors@.take(i)).len() as int,
            ),
{
    let mut inputs: Vec<Descriptor> = Vec::new();
    let mut k: usize = 0;
    while k < descriptors.len()
        invariant
            k <= descriptors.len(),
            desc_views(inputs@) == present_descriptors(descriptors@.take(k as int)),
        decreases descriptors.len() - k,
    {
        proof {
            assert(descriptors@.take(k + 1).drop_last() =~= descriptors@.take(k as int));
            assert(descriptors@.take(k + 1).last() == descriptors@[k as int]);
        }
        if let Some(d) = &descriptors[k] {
            inputs.push(d.duplicate());
            assert(desc_views(inputs@) =~= present_descriptors(descriptors@.take(k as int)).push(d@));
        }
        k = k + 1;
    }
    assert(descriptors@.take(descriptors.len() as int) =~= descriptors@);
    let ghost pd = present_descriptors(descriptors@);
    let ids = project_all(workspace, &inputs);
    let mut out: Vec<Option<CanonicalId>> = Vec::new();
    let mut c: usize = 0;
    let mut i: usize = 0;
    while i < descriptors.len()
        invariant
            i <= descriptors.len(),
            desc_views(inputs@) == pd,
            pd == present_descriptors(descriptors@),
            ids.len() == inputs.len(),
            forall|x: int| 0 <= x < inputs.len() ==> (#[trigger] ids@[x])@ == identity_of(workspace@, desc_views(inputs@), x),
            c == present_descriptors(descriptors@.take(i as int)).len(),
            c <= ids.len(),
            out.len() == i,
            forall|x: int| 0 <= x < i ==> ((#[trigger] out@[x]) is None <==> descriptors@[x] is None),
            forall|x: int|
                0 <= x < i && descriptors@[x] is Some ==> (#[trigger] out@[x]).unwrap()@ == identity_of(
                    workspace@,
                    pd,
                    present_descriptors(descriptors@.take(x)).len() as int,
                ),
        decreases descriptors.len() - i,
    {
        proof {
            assert(descriptors@.take(i + 1).drop_last() =~= descriptors@.take(i as int));
            assert(descriptors@.take(i + 1).last() == descriptors@[i as int]);
            lemma_present_prefix_len(descriptors@, i + 1);
        }
        if descriptors[i].is_some() {
            let id = ids[c].clone();
            out.push(Some(id));
            c = c + 1;
        } else {
            out.push(None);
        }
        i = i + 1;
    }
    out
}

/// A prefix has no more present descriptors than the whole list.
proof fn lemma_present_prefix_len(ds: Seq<Option<Descriptor>>, n: int)
    requires
        0 <= n <= ds.len(),
    ensures
        present_descriptors(ds.take(n)).len() <= present_descriptors(ds).len(),
        n < ds.len() ==> present_descriptors(ds.take(n)).len() + (if ds[n] is Some { 1int } else { 0int })
            <= present_descriptors(ds).len(),
    decreases ds.len() - n,
{
    if n < ds.len() {
        lemma_present_prefix_len(ds, n + 1);
        assert(ds.take(n + 1).drop_last() =~= ds.take(n));
    } else {
        assert(ds.take(n) =~= ds);
    }
}

} // verus!
