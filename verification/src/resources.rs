//! Resource manifests: the hierarchical layout (`resources.json`) of groups
//! holding resources, and the slot numbering of its resources.
use vstd::prelude::*;
use crate::text::str_eq;

verus! {

/// A path: a list of segments, or one string.
#[derive(Debug)]
pub enum PathDef {
    Array(Vec<String>),
    String(String),
}

/// The size of an atlas.
#[derive(Debug, Clone, Copy)]
pub struct Dimension {
    pub width: u32,
    pub height: u32,
}

/// The hierarchical manifest.
#[derive(Debug)]
pub struct ResourceGroup {
    pub version: Option<u32>,
    pub content_version: Option<u32>,
    pub slot_count: u32,
    pub groups: Vec<ShellSubgroupData>,
}

/// A group: a composite listing subgroups, or a simple group of resources.
#[derive(Debug)]
pub struct ShellSubgroupData {
    pub id: String,
    /// `composite` or `simple`.
    pub kind: String,
    pub res: Option<String>,
    pub parent: Option<String>,
    pub subgroups: Option<Vec<SubgroupWrapper>>,
    pub resources: Option<Vec<MSubgroupWrapper>>,
}

/// A reference from a composite to one of its subgroups.
#[derive(Debug)]
pub struct SubgroupWrapper {
    pub id: String,
    pub res: Option<String>,
}

/// A resource of a group.
#[derive(Debug)]
pub struct MSubgroupWrapper {
    /// The resource type, such as `Image`, `Sound` or `File`.
    pub kind: String,
    pub slot: u32,
    pub id: String,
    pub path: PathDef,
    pub atlas: Option<bool>,
    pub runtime: Option<bool>,
    pub x: Option<i32>,
    pub y: Option<i32>,
    pub cols: Option<u32>,
    pub rows: Option<u32>,
    pub parent: Option<String>,
    pub ax: Option<u32>,
    pub ay: Option<u32>,
    pub aw: Option<u32>,
    pub ah: Option<u32>,
    pub width: Option<u32>,
    pub height: Option<u32>,
    pub force_original_vector_symbol_size: Option<bool>,
    pub srcpath: Option<PathDef>,
}

/// Default placement of a sprite within its atlas.
#[derive(Debug, Clone, Copy)]
pub struct DefaultProperty {
    pub ax: u32,
    pub ay: u32,
    pub aw: u32,
    pub ah: u32,
    pub x: i32,
    pub y: i32,
    pub cols: Option<u32>,
    pub rows: Option<u32>,
}

/// A sprite of an atlas.
#[derive(Debug)]
pub struct SpriteData {
    pub kind: String,
    pub path: PathDef,
    pub defaults: DefaultProperty,
}

/// An atlas image and its sprites, in the order the packet lists them.
#[derive(Debug)]
pub struct AtlasWrapper {
    pub kind: String,
    pub path: PathDef,
    pub dimension: Dimension,
    pub data: Vec<(String, SpriteData)>,
}

/// A file resource of a packet.
#[derive(Debug)]
pub struct CommonDataWrapper {
    pub kind: String,
    pub path: PathDef,
    pub force_original_vector_symbol_size: Option<bool>,
    pub srcpath: Option<PathDef>,
}

/// A packet of file resources.
#[derive(Debug)]
pub struct CommonWrapper {
    pub kind: String,
    pub data: Vec<(String, CommonDataWrapper)>,
}

/// Errors of manifest conversion.
#[derive(Debug)]
pub enum ResourcesError {
    Io(String),
    /// A packet does not convert to the expected layout; the message says why.
    Json(String),
    MissingGroupMembers(String),
}

/// A subgroup of the flattened layout: its type, and its packet read as
/// atlases by id and, through its `data` entry, as files by id, each as far
/// as the packet converts.
#[derive(Debug)]
pub struct MSubgroupData {
    pub kind: Option<String>,
    pub atlases: Result<Vec<(String, AtlasWrapper)>, String>,
    pub files: Result<Vec<(String, CommonDataWrapper)>, String>,
}

/// A group of the flattened layout.
#[derive(Debug)]
pub struct GroupDictionary {
    pub is_composite: bool,
    pub subgroup: Vec<(String, MSubgroupData)>,
}

/// The flattened layout (`res.json`), its groups in the order read.
#[derive(Debug)]
pub struct ResInfo {
    pub expand_path: String,
    pub groups: Vec<(String, GroupDictionary)>,
}

// ─── Slots ──────────────────────────────────────────────────────────────────

/// The resources of a group, none for a composite.
pub open spec fn resources_of(g: ShellSubgroupData) -> Seq<MSubgroupWrapper> {
    match g.resources {
        Some(rs) => rs@,
        None => Seq::empty(),
    }
}

/// The resources of all groups, in order.
pub open spec fn all_resources(gs: Seq<ShellSubgroupData>) -> Seq<MSubgroupWrapper>
    decreases gs.len(),
{
    if gs.len() == 0 { Seq::empty() } else { all_resources(gs.drop_last()) + resources_of(gs.last()) }
}

/// The ids of resources, in order.
pub open spec fn ids(rs: Seq<MSubgroupWrapper>) -> Seq<Seq<char>> {
    rs.map_values(|r: MSubgroupWrapper| r.id@)
}

/// The distinct values of `s`, in order of first appearance.
pub open spec fn first_ids(s: Seq<Seq<char>>) -> Seq<Seq<char>>
    decreases s.len(),
{
    if s.len() == 0 {
        Seq::empty()
    } else if first_ids(s.drop_last()).contains(s.last()) {
        first_ids(s.drop_last())
    } else {
        first_ids(s.drop_last()).push(s.last())
    }
}

/// `a` is `b` with possibly another slot.
pub open spec fn same_but_slot(a: MSubgroupWrapper, b: MSubgroupWrapper) -> bool {
    MSubgroupWrapper { slot: 0, ..a } == MSubgroupWrapper { slot: 0, ..b }
}

/// `a` is `b` with possibly other resource slots.
pub open spec fn group_same_but_slots(a: ShellSubgroupData, b: ShellSubgroupData) -> bool {
    &&& a.id == b.id && a.kind == b.kind && a.res == b.res && a.parent == b.parent
    &&& a.subgroups == b.subgroups
    &&& a.resources is Some == b.resources is Some
    &&& resources_of(a).len() == resources_of(b).len()
    &&& forall|i: int| 0 <= i < resources_of(a).len() ==> same_but_slot(#[trigger] resources_of(a)[i], resources_of(b)[i])
}

/// Slot `r.slot` of the distinct ids is `r`'s id.
pub open spec fn slot_names(fids: Seq<Seq<char>>, r: MSubgroupWrapper) -> bool {
    r.slot < fids.len() && fids[r.slot as int] == r.id@
}

proof fn lemma_first_ids_push(s: Seq<Seq<char>>, x: Seq<char>)
    ensures
        first_ids(s.push(x)) == (if first_ids(s).contains(x) { first_ids(s) } else { first_ids(s).push(x) }),
{
    assert(s.push(x).drop_last() =~= s);
}

proof fn lemma_all_resources_push(gs: Seq<ShellSubgroupData>, g: ShellSubgroupData)
    ensures
        all_resources(gs.push(g)) == all_resources(gs) + resources_of(g),
{
    assert(gs.push(g).drop_last() =~= gs);
}

proof fn lemma_ids_take(rs: Seq<MSubgroupWrapper>, k: int)
    requires
        0 <= k < rs.len(),
    ensures
        ids(rs.take(k + 1)) == ids(rs.take(k)).push(rs[k].id@),
{
    assert(ids(rs.take(k + 1)) =~= ids(rs.take(k)).push(rs[k].id@));
}

/// Position of `id` among the distinct ids seen so far, if any.
fn find_id(seen: &Vec<String>, id: &String) -> (r: Option<usize>)
    ensures
        r matches Some(k) ==> k < seen@.len() && seen@[k as int]@ == id@,
        r is None ==> forall|k: int| 0 <= k < seen@.len() ==> seen@[k]@ != id@,
{
    let mut k: usize = 0;
    while k < seen.len()
        invariant
            k <= seen@.len(),
            forall|i: int| 0 <= i < k ==> seen@[i]@ != id@,
        decreases seen@.len() - k,
    {
        if str_eq(seen[k].as_str(), id.as_str()) {
            return Some(k);
        }
        k = k + 1;
    }
    None
}

/// `after` is `before` with its resources numbered: each distinct id has
/// the slot of its first appearance among the distinct ids, and `count`
/// slots are used.
pub open spec fn slots_rewritten(after: Seq<ShellSubgroupData>, before: Seq<ShellSubgroupData>, count: u32) -> bool {
    &&& after.len() == before.len()
    &&& forall|g: int| 0 <= g < before.len() ==> group_same_but_slots(#[trigger] after[g], before[g])
    &&& ids(all_resources(after)) == ids(all_resources(before))
    &&& count == first_ids(ids(all_resources(before))).len()
    &&& forall|j: int| 0 <= j < all_resources(after).len() ==> slot_names(
        first_ids(ids(all_resources(before))), #[trigger] all_resources(after)[j])
}

/// Numbers the resources of all groups: each distinct id gets the next
/// slot at its first appearance, and every resource the slot of its id;
/// the slot count is the number of distinct ids.
pub fn rewrite_slot(resource_group: &mut ResourceGroup)
    requires
        all_resources(old(resource_group).groups@).len() < u32::MAX,
    ensures
        final(resource_group).version == old(resource_group).version,
        final(resource_group).content_version == old(resource_group).content_version,
        slots_rewritten(final(resource_group).groups@, old(resource_group).groups@, final(resource_group).slot_count),
{
    let ghost old_groups = resource_group.groups@;
    let mut groups: Vec<ShellSubgroupData> = Vec::new();
    std::mem::swap(&mut groups, &mut resource_group.groups);
    let n = groups.len();
    let mut out: Vec<ShellSubgroupData> = Vec::new();
    let mut seen: Vec<String> = Vec::new();
    let ghost mut fids: Seq<Seq<char>> = Seq::empty();
    let mut gi: usize = 0;
    proof {
        assert(old_groups.take(0) =~= Seq::<ShellSubgroupData>::empty());
        assert(ids(all_resources(out@)) =~= Seq::<Seq<char>>::empty());
    }
    while gi < n
        invariant
            gi <= n,
            n == old_groups.len(),
            groups@ == old_groups.subrange(gi as int, n as int),
            out@.len() == gi,
            forall|g: int| 0 <= g < gi ==> group_same_but_slots(#[trigger] out@[g], old_groups[g]),
            ids(all_resources(out@)) == ids(all_resources(old_groups.take(gi as int))),
            all_resources(old_groups.take(gi as int)).len() <= all_resources(old_groups).len(),
            all_resources(old_groups).len() < u32::MAX,
            fids == first_ids(ids(all_resources(out@))),
            fids.len() <= all_resources(out@).len(),
            seen@.len() == fids.len(),
            forall|i: int| 0 <= i < seen@.len() ==> #[trigger] seen@[i]@ == fids[i],
            forall|j: int| 0 <= j < all_resources(out@).len() ==> slot_names(fids, #[trigger] all_resources(out@)[j]),
        decreases n - gi,
    {
        let g = groups.remove(0);
        let ghost og = g;
        let ShellSubgroupData { id, kind, res, parent, subgroups, resources } = g;
        let new_resources = match resources {
            None => None,
            Some(mut rs) => {
                let ghost ors = rs@;
                let m = rs.len();
                let mut nrs: Vec<MSubgroupWrapper> = Vec::new();
                let mut k: usize = 0;
                proof {
                    lemma_all_resources_prefix(old_groups, gi as int);
                    assert(og == old_groups[gi as int]);
                    assert(ids(all_resources(out@)).len() == all_resources(out@).len());
                    assert(ids(all_resources(old_groups.take(gi as int))).len() == all_resources(old_groups.take(gi as int)).len());
                    assert(ors.take(0) =~= Seq::<MSubgroupWrapper>::empty());
                    assert(ids(nrs@) =~= Seq::<Seq<char>>::empty());
                    assert(ids(all_resources(out@)) + ids(nrs@) =~= ids(all_resources(out@)));
                }
                while k < m
                    invariant
                        k <= m,
                        m == ors.len(),
                        rs@ == ors.subrange(k as int, m as int),
                        nrs@.len() == k,
                        forall|i: int| 0 <= i < k ==> same_but_slot(#[trigger] nrs@[i], ors[i]),
                        ids(nrs@) == ids(ors.take(k as int)),
                        all_resources(out@).len() + m <= all_resources(old_groups).len(),
                        all_resources(old_groups).len() < u32::MAX,
                        fids == first_ids(ids(all_resources(out@)) + ids(nrs@)),
                        fids.len() <= all_resources(out@).len() + k,
                        seen@.len() == fids.len(),
                        forall|i: int| 0 <= i < seen@.len() ==> #[trigger] seen@[i]@ == fids[i],
                        forall|j: int| 0 <= j < all_resources(out@).len() ==> slot_names(fids, #[trigger] all_resources(out@)[j]),
                        forall|i: int| 0 <= i < k ==> slot_names(fids, #[trigger] nrs@[i]),
                    decreases m - k,
                {
                    let mut r = rs.remove(0);
                    assert(rs@ =~= ors.subrange(k + 1, m as int));
                    let ghost before = r;
                    let ghost prefix = ids(all_resources(out@)) + ids(nrs@);
                    proof {
                        lemma_first_ids_push(prefix, r.id@);
                    }
                    match find_id(&seen, &r.id) {
                        Some(s) => {
                            assert(fids.contains(r.id@)) by {
                                assert(fids[s as int] == r.id@);
                            }
                            r.slot = s as u32;
                        },
                        None => {
                            assert forall|i: int| 0 <= i < fids.len() implies fids[i] != r.id@ by {
                                assert(seen@[i]@ == fids[i]);
                            }
                            assert(!fids.contains(r.id@));
                            r.slot = seen.len() as u32;
                            seen.push(r.id.clone());
                            proof {
                                fids = fids.push(before.id@);
                            }
                        },
                    }
                    proof {
                        lemma_ids_take(ors, k as int);
                        assert(ids(nrs@.push(r)) =~= ids(nrs@).push(r.id@));
                        assert(prefix.push(r.id@) =~= ids(all_resources(out@)) + ids(nrs@.push(r)));
                    }
                    nrs.push(r);
                    k = k + 1;
                }
                proof {
                    assert(ors.take(m as int) =~= ors);
                }
                Some(nrs)
            },
        };
        let ng = ShellSubgroupData { id, kind, res, parent, subgroups, resources: new_resources };
        proof {
            lemma_all_resources_push(out@, ng);
            lemma_all_resources_push(old_groups.take(gi as int), og);
            assert(old_groups.take(gi + 1) =~= old_groups.take(gi as int).push(og));
            assert(ids(resources_of(ng)) =~= ids(resources_of(og)));
            assert(ids(all_resources(out@) + resources_of(ng)) =~= ids(all_resources(out@)) + ids(resources_of(ng)));
            assert(ids(all_resources(old_groups.take(gi as int)) + resources_of(og)) =~= ids(all_resources(old_groups.take(gi as int))) + ids(resources_of(og)));
            if og.resources is None {
                assert(ids(all_resources(out@)) + ids(resources_of(ng)) =~= ids(all_resources(out@)));
            }
            assert forall|j: int| 0 <= j < all_resources(out@.push(ng)).len() implies slot_names(fids, #[trigger] all_resources(out@.push(ng))[j]) by {
                if j >= all_resources(out@).len() {
                    assert(all_resources(out@.push(ng))[j] == resources_of(ng)[j - all_resources(out@).len()]);
                } else {
                    assert(all_resources(out@.push(ng))[j] == all_resources(out@)[j]);
                }
            }
            lemma_all_resources_prefix(old_groups, gi as int);
        }
        out.push(ng);
        gi = gi + 1;
    }
    proof {
        assert(old_groups.take(n as int) =~= old_groups);
    }
    resource_group.groups = out;
    resource_group.slot_count = seen.len() as u32;
}

proof fn lemma_all_resources_prefix(gs: Seq<ShellSubgroupData>, k: int)
    requires
        0 <= k < gs.len(),
    ensures
        all_resources(gs.take(k)).len() + resources_of(gs[k]).len() <= all_resources(gs).len(),
        all_resources(gs.take(k + 1)).len() <= all_resources(gs).len(),
    decreases gs.len(),
{
    if k + 1 == gs.len() {
        assert(gs.drop_last() =~= gs.take(k));
        assert(gs.take(k + 1) =~= gs);
    } else {
        lemma_all_resources_prefix(gs.drop_last(), k);
        assert(gs.drop_last().take(k) =~= gs.take(k));
        assert(gs.drop_last().take(k + 1) =~= gs.take(k + 1));
        assert(gs.drop_last()[k] == gs[k]);
    }
}

/// The distinct ids are distinct, and they are exactly the ids that occur:
/// so slot numbers name each distinct id once and the slot count is the
/// number of distinct ids.
pub proof fn lemma_first_ids(s: Seq<Seq<char>>)
    ensures
        first_ids(s).no_duplicates(),
        forall|x: Seq<char>| s.contains(x) <==> #[trigger] first_ids(s).contains(x),
    decreases s.len(),
{
    if s.len() > 0 {
        let p = s.drop_last();
        let l = s.last();
        let fp = first_ids(p);
        let fs = first_ids(s);
        lemma_first_ids(p);
        if !fp.contains(l) {
            assert(fs == fp.push(l));
            assert forall|i: int, j: int| 0 <= i < j < fs.len() implies fs[i] != fs[j] by {
                if j == fp.len() {
                    assert(fs[i] == fp[i]);
                } else {
                    assert(fs[i] == fp[i] && fs[j] == fp[j]);
                }
            }
        } else {
            assert(fs == fp);
        }
        assert forall|x: Seq<char>| s.contains(x) implies #[trigger] fs.contains(x) by {
            let i = choose|i: int| 0 <= i < s.len() && s[i] == x;
            if i < s.len() - 1 {
                assert(p[i] == x);
                assert(p.contains(x));
                assert(fp.contains(x));
                let k = choose|k: int| 0 <= k < fp.len() && fp[k] == x;
                if !fp.contains(l) {
                    assert(fs[k] == x);
                }
            } else if !fp.contains(l) {
                assert(fs[fp.len() as int] == l);
            }
        }
        assert forall|x: Seq<char>| #[trigger] fs.contains(x) implies s.contains(x) by {
            let k = choose|k: int| 0 <= k < fs.len() && fs[k] == x;
            if fp.contains(x) {
                assert(p.contains(x));
                let i = choose|i: int| 0 <= i < p.len() && p[i] == x;
                assert(s[i] == x);
            } else {
                if fp.contains(l) {
                    assert(fs[k] == fp[k]);
                } else if k < fp.len() {
                    assert(fs[k] == fp[k]);
                }
                assert(x == l);
                assert(s[s.len() - 1] == x);
            }
        }
    }
}

// ─── From the flattened layout ──────────────────────────────────────────────

/// The resource a file entry gives.
pub open spec fn file_resource(key: String, d: CommonDataWrapper) -> MSubgroupWrapper {
    MSubgroupWrapper {
        kind: d.kind,
        slot: 0,
        id: key,
        path: d.path,
        atlas: None,
        runtime: None,
        x: None,
        y: None,
        cols: None,
        rows: None,
        parent: None,
        ax: None,
        ay: None,
        aw: None,
        ah: None,
        width: None,
        height: None,
        force_original_vector_symbol_size: d.force_original_vector_symbol_size,
        srcpath: d.srcpath,
    }
}

/// The resources of file entries, in order.
pub open spec fn file_resources(es: Seq<(String, CommonDataWrapper)>) -> Seq<MSubgroupWrapper> {
    es.map_values(|e: (String, CommonDataWrapper)| file_resource(e.0, e.1))
}

/// The resource an atlas gives.
pub open spec fn atlas_resource(key: String, a: AtlasWrapper) -> MSubgroupWrapper {
    MSubgroupWrapper {
        kind: a.kind,
        slot: 0,
        id: key,
        path: a.path,
        atlas: Some(true),
        runtime: Some(true),
        x: None,
        y: None,
        cols: None,
        rows: None,
        parent: None,
        ax: None,
        ay: None,
        aw: None,
        ah: None,
        width: Some(a.dimension.width),
        height: Some(a.dimension.height),
        force_original_vector_symbol_size: None,
        srcpath: None,
    }
}

/// `Some(v)` unless `v` is zero.
pub open spec fn nonzero(v: i32) -> Option<i32> {
    if v != 0 { Some(v) } else { None }
}

/// The resource a sprite of atlas `parent` gives.
pub open spec fn sprite_resource(key: String, d: SpriteData, parent: String) -> MSubgroupWrapper {
    MSubgroupWrapper {
        kind: d.kind,
        slot: 0,
        id: key,
        path: d.path,
        atlas: None,
        runtime: None,
        x: nonzero(d.defaults.x),
        y: nonzero(d.defaults.y),
        cols: d.defaults.cols,
        rows: d.defaults.rows,
        parent: Some(parent),
        ax: Some(d.defaults.ax),
        ay: Some(d.defaults.ay),
        aw: Some(d.defaults.aw),
        ah: Some(d.defaults.ah),
        width: None,
        height: None,
        force_original_vector_symbol_size: None,
        srcpath: None,
    }
}

/// The resources of the sprites of atlas `parent`, in order.
pub open spec fn sprite_resources(ss: Seq<(String, SpriteData)>, parent: String) -> Seq<MSubgroupWrapper> {
    ss.map_values(|e: (String, SpriteData)| sprite_resource(e.0, e.1, parent))
}

/// The resources of one atlas: the atlas, then its sprites.
pub open spec fn one_atlas(e: (String, AtlasWrapper)) -> Seq<MSubgroupWrapper> {
    seq![atlas_resource(e.0, e.1)] + sprite_resources(e.1.data@, e.0)
}

/// The resources of atlases, in order.
pub open spec fn atlas_resources(es: Seq<(String, AtlasWrapper)>) -> Seq<MSubgroupWrapper>
    decreases es.len(),
{
    if es.len() == 0 { Seq::empty() } else { atlas_resources(es.drop_last()) + one_atlas(es.last()) }
}

/// `g` is a simple group `id` under `parent` with type `res` holding `rs`.
pub open spec fn simple_group(g: ShellSubgroupData, id: String, parent: Option<String>, res: Option<String>, rs: Seq<MSubgroupWrapper>) -> bool {
    &&& g.id == id
    &&& g.kind@ == "simple"@
    &&& g.res == res
    &&& g.parent == parent
    &&& g.subgroups is None
    &&& g.resources matches Some(v) && v@ == rs
}

/// A subgroup of a composite is read as atlases when its type is given and
/// is not `0`, and as files otherwise.
pub open spec fn reads_atlases(d: MSubgroupData) -> bool {
    d.kind matches Some(t) && t@ != "0"@
}

/// `g` is what a subgroup of composite `parent` gives.
pub open spec fn member_group(g: ShellSubgroupData, name: String, parent: String, d: MSubgroupData) -> bool {
    if reads_atlases(d) {
        d.atlases matches Ok(es) && simple_group(g, name, Some(parent), d.kind, atlas_resources(es@))
    } else {
        d.files matches Ok(es) && simple_group(g, name, Some(parent), None, file_resources(es@))
    }
}

/// The packet error of a subgroup of a composite, if any.
pub open spec fn member_fault(d: MSubgroupData) -> Option<String> {
    if reads_atlases(d) {
        match d.atlases { Err(m) => Some(m), Ok(_) => None }
    } else {
        match d.files { Err(m) => Some(m), Ok(_) => None }
    }
}

/// The packet error of an independent subgroup, if any.
pub open spec fn single_fault(d: MSubgroupData) -> Option<String> {
    match d.files { Err(m) => Some(m), Ok(_) => None }
}

/// The first packet error among subgroups `k` on of a group.
pub open spec fn subs_fault(subs: Seq<(String, MSubgroupData)>, composite: bool, k: int) -> Option<String>
    decreases subs.len() - k,
{
    if k < 0 || k >= subs.len() {
        None
    } else if (if composite { member_fault(subs[k].1) } else { single_fault(subs[k].1) }) is Some {
        if composite { member_fault(subs[k].1) } else { single_fault(subs[k].1) }
    } else {
        subs_fault(subs, composite, k + 1)
    }
}

/// The first packet error among groups `i` on.
pub open spec fn groups_fault(gs: Seq<(String, GroupDictionary)>, i: int) -> Option<String>
    decreases gs.len() - i,
{
    if i < 0 || i >= gs.len() {
        None
    } else if subs_fault(gs[i].1.subgroup@, gs[i].1.is_composite, 0) is Some {
        subs_fault(gs[i].1.subgroup@, gs[i].1.is_composite, 0)
    } else {
        groups_fault(gs, i + 1)
    }
}

/// The number of groups that a group of the flattened layout gives.
pub open spec fn shells_of(g: GroupDictionary) -> int {
    if g.is_composite { g.subgroup@.len() as int + 1 } else { g.subgroup@.len() as int }
}

/// `out` holds the groups that group `(name, g)` gives.
pub open spec fn shells_built(out: Seq<ShellSubgroupData>, name: String, g: GroupDictionary) -> bool {
    let subs = g.subgroup@;
    &&& out.len() == shells_of(g)
    &&& if g.is_composite {
        &&& out[0].id == name
        &&& out[0].kind@ == "composite"@
        &&& out[0].res is None && out[0].parent is None && out[0].resources is None
        &&& out[0].subgroups matches Some(ws) && ws@.len() == subs.len()
            && forall|k: int| 0 <= k < subs.len() ==> (#[trigger] ws@[k]).id == subs[k].0 && ws@[k].res == subs[k].1.kind
        &&& forall|k: int| 0 <= k < subs.len() ==> member_group(#[trigger] out[k + 1], subs[k].0, name, subs[k].1)
    } else {
        forall|k: int| 0 <= k < subs.len() ==> {
            &&& (#[trigger] subs[k]).1.files matches Ok(es)
            &&& simple_group(out[k], subs[k].0, None, None, file_resources(es@))
        }
    }
}

/// `out` holds, in order, the groups that the flattened groups give.
pub open spec fn groups_built(out: Seq<ShellSubgroupData>, gs: Seq<(String, GroupDictionary)>) -> bool
    decreases gs.len(),
{
    if gs.len() == 0 {
        out.len() == 0
    } else {
        let n = out.len() - shells_of(gs.last().1);
        &&& n >= 0
        &&& groups_built(out.take(n), gs.drop_last())
        &&& shells_built(out.skip(n), gs.last().0, gs.last().1)
    }
}

/// The groups of the files of a packet.
fn file_info(id: String, parent: Option<String>, files: Result<Vec<(String, CommonDataWrapper)>, String>)
    -> (res: Result<ShellSubgroupData, ResourcesError>)
    ensures
        res is Err <==> files is Err,
        files matches Err(m) ==> res matches Err(ResourcesError::Json(x)) && x == m,
        files matches Ok(es) ==> res matches Ok(g) && simple_group(g, id, parent, None, file_resources(es@)),
{
    match files {
        Err(m) => Err(ResourcesError::Json(m)),
        Ok(mut es) => {
            let ghost all = es@;
            let n = es.len();
            let mut rs: Vec<MSubgroupWrapper> = Vec::new();
            let mut k: usize = 0;
            while k < n
                invariant
                    k <= n,
                    n == all.len(),
                    es@ == all.subrange(k as int, n as int),
                    rs@ == file_resources(all.take(k as int)),
                decreases n - k,
            {
                let (key, d) = es.remove(0);
                assert(es@ =~= all.subrange(k + 1, n as int));
                let CommonDataWrapper { kind, path, force_original_vector_symbol_size, srcpath } = d;
                rs.push(MSubgroupWrapper {
                    kind,
                    slot: 0,
                    id: key,
                    path,
                    atlas: None,
                    runtime: None,
                    x: None,
                    y: None,
                    cols: None,
                    rows: None,
                    parent: None,
                    ax: None,
                    ay: None,
                    aw: None,
                    ah: None,
                    width: None,
                    height: None,
                    force_original_vector_symbol_size,
                    srcpath,
                });
                k = k + 1;
                assert(rs@ =~= file_resources(all.take(k as int)));
            }
            assert(all.take(n as int) =~= all);
            proof {
                reveal_strlit("simple");
            }
            Ok(ShellSubgroupData {
                id,
                kind: "simple".to_string(),
                res: None,
                parent,
                subgroups: None,
                resources: Some(rs),
            })
        },
    }
}

/// The resources of one atlas and its sprites.
fn atlas_entry(key: String, a: AtlasWrapper) -> (rs: Vec<MSubgroupWrapper>)
    ensures
        rs@ == one_atlas((key, a)),
{
    let AtlasWrapper { kind, path, dimension, data } = a;
    let ghost sprites = data@;
    let mut rs: Vec<MSubgroupWrapper> = Vec::new();
    rs.push(MSubgroupWrapper {
        kind,
        slot: 0,
        id: key.clone(),
        path,
        atlas: Some(true),
        runtime: Some(true),
        x: None,
        y: None,
        cols: None,
        rows: None,
        parent: None,
        ax: None,
        ay: None,
        aw: None,
        ah: None,
        width: Some(dimension.width),
        height: Some(dimension.height),
        force_original_vector_symbol_size: None,
        srcpath: None,
    });
    let mut data = data;
    let n = data.len();
    let mut k: usize = 0;
    while k < n
        invariant
            k <= n,
            n == sprites.len(),
            data@ == sprites.subrange(k as int, n as int),
            rs@ == seq![atlas_resource(key, a)] + sprite_resources(sprites.take(k as int), key),
        decreases n - k,
    {
        let (sub_key, d) = data.remove(0);
        assert(data@ =~= sprites.subrange(k + 1, n as int));
        let SpriteData { kind, path, defaults } = d;
        rs.push(MSubgroupWrapper {
            kind,
            slot: 0,
            id: sub_key,
            path,
            atlas: None,
            runtime: None,
            x: if defaults.x != 0 { Some(defaults.x) } else { None },
            y: if defaults.y != 0 { Some(defaults.y) } else { None },
            cols: defaults.cols,
            rows: defaults.rows,
            parent: Some(key.clone()),
            ax: Some(defaults.ax),
            ay: Some(defaults.ay),
            aw: Some(defaults.aw),
            ah: Some(defaults.ah),
            width: None,
            height: None,
            force_original_vector_symbol_size: None,
            srcpath: None,
        });
        k = k + 1;
        assert(rs@ =~= seq![atlas_resource(key, a)] + sprite_resources(sprites.take(k as int), key));
    }
    assert(sprites.take(n as int) =~= sprites);
    rs
}

/// The group of the atlases of a packet.
fn image_info(id: String, parent: Option<String>, res: Option<String>, atlases: Result<Vec<(String, AtlasWrapper)>, String>)
    -> (r: Result<ShellSubgroupData, ResourcesError>)
    ensures
        r is Err <==> atlases is Err,
        atlases matches Err(m) ==> r matches Err(ResourcesError::Json(x)) && x == m,
        atlases matches Ok(es) ==> r matches Ok(g) && simple_group(g, id, parent, res, atlas_resources(es@)),
{
    match atlases {
        Err(m) => Err(ResourcesError::Json(m)),
        Ok(mut es) => {
            let ghost all = es@;
            let n = es.len();
            let mut rs: Vec<MSubgroupWrapper> = Vec::new();
            let mut k: usize = 0;
            while k < n
                invariant
                    k <= n,
                    n == all.len(),
                    es@ == all.subrange(k as int, n as int),
                    rs@ == atlas_resources(all.take(k as int)),
                decreases n - k,
            {
                let (key, a) = es.remove(0);
                assert(es@ =~= all.subrange(k + 1, n as int));
                let mut part = atlas_entry(key, a);
                rs.append(&mut part);
                proof {
                    assert(all.take(k + 1).drop_last() =~= all.take(k as int));
                }
                k = k + 1;
            }
            assert(all.take(n as int) =~= all);
            proof {
                reveal_strlit("simple");
            }
            Ok(ShellSubgroupData {
                id,
                kind: "simple".to_string(),
                res,
                parent,
                subgroups: None,
                resources: Some(rs),
            })
        },
    }
}

/// Whether a subgroup's type calls for reading it as atlases.
pub(crate) fn is_atlas_type(kind: &Option<String>) -> (r: bool)
    ensures
        r == (kind matches Some(t) && t@ != "0"@),
{
    match kind {
        Some(t) => !str_eq(t.as_str(), "0"),
        None => false,
    }
}

pub(crate) fn clone_opt(s: &Option<String>) -> (r: Option<String>)
    ensures
        r == *s,
{
    match s {
        Some(t) => Some(t.clone()),
        None => None,
    }
}

/// Appends the groups that group `(name, g)` gives.
fn push_shells(out: &mut Vec<ShellSubgroupData>, name: String, is_composite: bool, subgroup: Vec<(String, MSubgroupData)>)
    -> (r: Result<(), ResourcesError>)
    ensures
        r is Err <==> subs_fault(subgroup@, is_composite, 0) is Some,
        r matches Err(e) ==> subs_fault(subgroup@, is_composite, 0) matches Some(m) && e == ResourcesError::Json(m),
        r is Ok ==> {
            &&& final(out)@.len() == old(out)@.len() + shells_of(GroupDictionary { is_composite, subgroup })
            &&& final(out)@.take(old(out)@.len() as int) == old(out)@
            &&& shells_built(final(out)@.skip(old(out)@.len() as int), name, GroupDictionary { is_composite, subgroup })
        },
{
    let ghost start = out@;
    let ghost subs = subgroup@;
    let n = subgroup.len();
    if is_composite {
        let mut refs: Vec<SubgroupWrapper> = Vec::new();
        let mut k: usize = 0;
        while k < n
            invariant
                k <= n,
                n == subs.len(),
                subgroup@ == subs,
                refs@.len() == k,
                forall|i: int| 0 <= i < k ==> (#[trigger] refs@[i]).id == subs[i].0 && refs@[i].res == subs[i].1.kind,
            decreases n - k,
        {
            let e = &subgroup[k];
            refs.push(SubgroupWrapper { id: e.0.clone(), res: clone_opt(&e.1.kind) });
            k = k + 1;
        }
        proof {
            reveal_strlit("composite");
        }
        out.push(ShellSubgroupData {
            id: name.clone(),
            kind: "composite".to_string(),
            res: None,
            parent: None,
            subgroups: Some(refs),
            resources: None,
        });
    }
    let ghost head = out@;
    let mut rest = subgroup;
    let mut k: usize = 0;
    while k < n
        invariant
            k <= n,
            n == subs.len(),
            rest@ == subs.subrange(k as int, n as int),
            subs == subgroup@,
            out@.len() == head.len() + k,
            out@.take(head.len() as int) == head,
            subs_fault(subs, is_composite, 0) == subs_fault(subs, is_composite, k as int),
            forall|i: int| #![trigger subs[i]] 0 <= i < k ==> if is_composite {
                member_group(out@[head.len() + i], subs[i].0, name, subs[i].1)
            } else {
                &&& subs[i].1.files matches Ok(es)
                &&& simple_group(out@[head.len() + i], subs[i].0, None, None, file_resources(es@))
            },
        decreases n - k,
    {
        let (sub_name, data) = rest.remove(0);
        assert(rest@ =~= subs.subrange(k + 1, n as int));
        let ghost d = data;
        assert(d == subs[k as int].1 && sub_name == subs[k as int].0);
        let MSubgroupData { kind, atlases, files } = data;
        let r = if is_composite {
            if is_atlas_type(&kind) {
                image_info(sub_name, Some(name.clone()), kind, atlases)
            } else {
                file_info(sub_name, Some(name.clone()), files)
            }
        } else {
            file_info(sub_name, None, files)
        };
        match r {
            Err(e) => {
                assert(subs_fault(subs, is_composite, k as int) == (if is_composite { member_fault(d) } else { single_fault(d) }));
                proof {
                    if is_composite {
                        if reads_atlases(d) {
                            assert(d.atlases is Err);
                        } else {
                            assert(d.files is Err);
                        }
                        assert(member_fault(d) is Some);
                    } else {
                        assert(single_fault(d) is Some);
                    }
                    assert(subs_fault(subs, is_composite, k as int) is Some);
                    assert(subs_fault(subs, is_composite, 0) is Some);
                }
                return Err(e);
            },
            Ok(shell) => {
                let ghost before = out@;
                out.push(shell);
                assert(out@.take(head.len() as int) =~= head) by {
                    assert(before.take(head.len() as int) == head);
                }
                assert forall|i: int| #![trigger subs[i]] 0 <= i < k + 1 implies if is_composite {
                    member_group(out@[head.len() + i], subs[i].0, name, subs[i].1)
                } else {
                    &&& subs[i].1.files matches Ok(es)
                    &&& simple_group(out@[head.len() + i], subs[i].0, None, None, file_resources(es@))
                } by {
                    if i < k {
                        assert(out@[head.len() + i] == before[head.len() + i]);
                    }
                }
            },
        }
        k = k + 1;
    }
    proof {
        let tail = out@.skip(start.len() as int);
        assert(out@.take(start.len() as int) =~= start) by {
            if is_composite {
                assert(head.take(start.len() as int) =~= start);
                assert(out@.take(start.len() as int) =~= head.take(start.len() as int));
            }
        }
        if is_composite {
            assert(tail[0] == head[start.len() as int]);
            assert forall|i: int| 0 <= i < subs.len() implies member_group(#[trigger] tail[i + 1], subs[i].0, name, subs[i].1) by {
                assert(tail[i + 1] == out@[head.len() + i]);
            }
        } else {
            assert forall|i: int| 0 <= i < subs.len() implies {
                &&& (#[trigger] subs[i]).1.files matches Ok(es)
                &&& simple_group(tail[i], subs[i].0, None, None, file_resources(es@))
            } by {
                assert(tail[i] == out@[head.len() + i]);
            }
        }
    }
    Ok(())
}

/// The groups that the flattened groups give, in order.
fn build_groups(gs: Vec<(String, GroupDictionary)>) -> (r: Result<Vec<ShellSubgroupData>, ResourcesError>)
    ensures
        r is Err <==> groups_fault(gs@, 0) is Some,
        r matches Err(e) ==> groups_fault(gs@, 0) matches Some(m) && e == ResourcesError::Json(m),
        r matches Ok(out) ==> groups_built(out@, gs@),
{
    let ghost all = gs@;
    let n = gs.len();
    let mut rest = gs;
    let mut out: Vec<ShellSubgroupData> = Vec::new();
    let mut k: usize = 0;
    assert(all.take(0) =~= Seq::<(String, GroupDictionary)>::empty());
    while k < n
        invariant
            k <= n,
            n == all.len(),
            all == gs@,
            rest@ == all.subrange(k as int, n as int),
            groups_fault(all, 0) == groups_fault(all, k as int),
            groups_built(out@, all.take(k as int)),
        decreases n - k,
    {
        let (name, g) = rest.remove(0);
        assert(rest@ =~= all.subrange(k + 1, n as int));
        let ghost gk = g;
        assert(all[k as int] == (name, gk));
        let GroupDictionary { is_composite, subgroup } = g;
        assert(gk == GroupDictionary { is_composite, subgroup });
        let ghost before = out@;
        match push_shells(&mut out, name, is_composite, subgroup) {
            Err(e) => {
                return Err(e);
            },
            Ok(()) => {
                proof {
                    let t = all.take(k + 1);
                    assert(t.drop_last() =~= all.take(k as int));
                    assert(t.last() == all[k as int]);
                    let m = out@.len() - shells_of(gk);
                    assert(m == before.len());
                    assert(out@.take(m) == before);
                }
            },
        }
        k = k + 1;
    }
    assert(all.take(n as int) =~= all);
    Ok(out)
}

/// Converts the flattened layout to the hierarchical one: per group, a
/// composite lists its subgroups and is followed by them (atlas packets
/// for subgroups of a type other than `0`, file packets otherwise), and an
/// independent group gives one file group per subgroup; then the resources
/// are numbered.
pub fn convert_res_info_to_resource_group(res_info: ResInfo) -> (r: Result<ResourceGroup, ResourcesError>)
    requires
        forall|b: Seq<ShellSubgroupData>| #[trigger] groups_built(b, res_info.groups@)
            ==> all_resources(b).len() < u32::MAX,
    ensures
        r is Err <==> groups_fault(res_info.groups@, 0) is Some,
        r matches Err(e) ==> groups_fault(res_info.groups@, 0) matches Some(m) && e == ResourcesError::Json(m),
        r matches Ok(rg) ==> {
            &&& rg.version == Some(1u32) && rg.content_version == Some(1u32)
            &&& exists|b: Seq<ShellSubgroupData>| #[trigger] groups_built(b, res_info.groups@)
                && slots_rewritten(rg.groups@, b, rg.slot_count)
        },
{
    let ResInfo { expand_path: _, groups } = res_info;
    let built = match build_groups(groups) {
        Ok(b) => b,
        Err(e) => return Err(e),
    };
    let ghost b = built@;
    let mut rg = ResourceGroup { version: Some(1), content_version: Some(1), slot_count: 0, groups: built };
    assert(groups_built(b, res_info.groups@));
    rewrite_slot(&mut rg);
    Ok(rg)
}


// ─── To the flattened layout ────────────────────────────────────────────────

/// A path as values.
pub enum PathView {
    Array(Seq<Seq<char>>),
    String(Seq<char>),
}

/// The characters of each string.
pub open spec fn str_views(v: Seq<String>) -> Seq<Seq<char>> {
    v.map_values(|t: String| t@)
}

pub open spec fn path_view(p: PathDef) -> PathView {
    match p {
        PathDef::Array(v) => PathView::Array(str_views(v@)),
        PathDef::String(t) => PathView::String(t@),
    }
}

pub open spec fn opt_path_view(p: Option<PathDef>) -> Option<PathView> {
    match p {
        Some(q) => Some(path_view(q)),
        None => None,
    }
}

pub open spec fn opt_view(s: Option<String>) -> Option<Seq<char>> {
    match s {
        Some(t) => Some(t@),
        None => None,
    }
}

/// A sprite of an atlas as values.
pub struct SpriteView {
    pub kind: Seq<char>,
    pub path: PathView,
    pub defaults: DefaultProperty,
}

/// An atlas as values.
pub struct AtlasView {
    pub kind: Seq<char>,
    pub path: PathView,
    pub dimension: Dimension,
    pub data: Seq<(Seq<char>, SpriteView)>,
}

/// A file resource of a packet as values.
pub struct FileView {
    pub kind: Seq<char>,
    pub path: PathView,
    pub force_original_vector_symbol_size: Option<bool>,
    pub srcpath: Option<PathView>,
}

/// A subgroup of the flattened layout as values; a packet that does not
/// read as atlases (or as files) has `None` there.
pub struct PacketView {
    pub kind: Option<Seq<char>>,
    pub atlases: Option<Seq<(Seq<char>, AtlasView)>>,
    pub files: Option<Seq<(Seq<char>, FileView)>>,
}

/// A group of the flattened layout as values.
pub struct DictView {
    pub is_composite: bool,
    pub subgroup: Seq<(Seq<char>, PacketView)>,
}

pub open spec fn sprite_view(d: SpriteData) -> SpriteView {
    SpriteView { kind: d.kind@, path: path_view(d.path), defaults: d.defaults }
}

pub open spec fn sprite_views(v: Seq<(String, SpriteData)>) -> Seq<(Seq<char>, SpriteView)> {
    v.map_values(|e: (String, SpriteData)| (e.0@, sprite_view(e.1)))
}

pub open spec fn atlas_view(a: AtlasWrapper) -> AtlasView {
    AtlasView { kind: a.kind@, path: path_view(a.path), dimension: a.dimension, data: sprite_views(a.data@) }
}

pub open spec fn atlas_views(v: Seq<(String, AtlasWrapper)>) -> Seq<(Seq<char>, AtlasView)> {
    v.map_values(|e: (String, AtlasWrapper)| (e.0@, atlas_view(e.1)))
}

pub open spec fn file_view(d: CommonDataWrapper) -> FileView {
    FileView {
        kind: d.kind@,
        path: path_view(d.path),
        force_original_vector_symbol_size: d.force_original_vector_symbol_size,
        srcpath: opt_path_view(d.srcpath),
    }
}

pub open spec fn file_views(v: Seq<(String, CommonDataWrapper)>) -> Seq<(Seq<char>, FileView)> {
    v.map_values(|e: (String, CommonDataWrapper)| (e.0@, file_view(e.1)))
}

pub open spec fn packet_view(d: MSubgroupData) -> PacketView {
    PacketView {
        kind: opt_view(d.kind),
        atlases: match d.atlases {
            Ok(v) => Some(atlas_views(v@)),
            Err(_) => None,
        },
        files: match d.files {
            Ok(v) => Some(file_views(v@)),
            Err(_) => None,
        },
    }
}

pub open spec fn packet_views(v: Seq<(String, MSubgroupData)>) -> Seq<(Seq<char>, PacketView)> {
    v.map_values(|e: (String, MSubgroupData)| (e.0@, packet_view(e.1)))
}

pub open spec fn dict_view(g: GroupDictionary) -> DictView {
    DictView { is_composite: g.is_composite, subgroup: packet_views(g.subgroup@) }
}

pub open spec fn dict_views(v: Seq<(String, GroupDictionary)>) -> Seq<(Seq<char>, DictView)> {
    v.map_values(|e: (String, GroupDictionary)| (e.0@, dict_view(e.1)))
}

pub open spec fn or_zero(v: Option<u32>) -> u32 {
    match v {
        Some(x) => x,
        None => 0,
    }
}

pub open spec fn or_zero_i(v: Option<i32>) -> i32 {
    match v {
        Some(x) => x,
        None => 0,
    }
}

/// The sprite a child resource of an atlas becomes (absent placements are 0).
pub open spec fn child_sprite(r: MSubgroupWrapper) -> SpriteView {
    SpriteView {
        kind: r.kind@,
        path: path_view(r.path),
        defaults: DefaultProperty {
            ax: or_zero(r.ax),
            ay: or_zero(r.ay),
            aw: or_zero(r.aw),
            ah: or_zero(r.ah),
            x: or_zero_i(r.x),
            y: or_zero_i(r.y),
            cols: r.cols,
            rows: r.rows,
        },
    }
}

/// The resources of `rs` whose parent is `id`, as sprites, in order.
pub open spec fn children_of(rs: Seq<MSubgroupWrapper>, id: Seq<char>) -> Seq<(Seq<char>, SpriteView)>
    decreases rs.len(),
{
    if rs.len() == 0 {
        Seq::empty()
    } else {
        let prev = children_of(rs.drop_last(), id);
        if rs.last().parent matches Some(p) && p@ == id { prev.push((rs.last().id@, child_sprite(rs.last()))) } else { prev }
    }
}

/// The atlas an atlas resource becomes, with the resources of `all` whose
/// parent it is (absent sizes are 0).
pub open spec fn atlas_of(r: MSubgroupWrapper, all: Seq<MSubgroupWrapper>) -> AtlasView {
    AtlasView {
        kind: r.kind@,
        path: path_view(r.path),
        dimension: Dimension { width: or_zero(r.width), height: or_zero(r.height) },
        data: children_of(all, r.id@),
    }
}

/// The atlases among `rs` (resources marked `atlas: true`), in order.
pub open spec fn atlases_of(rs: Seq<MSubgroupWrapper>, all: Seq<MSubgroupWrapper>) -> Seq<(Seq<char>, AtlasView)>
    decreases rs.len(),
{
    if rs.len() == 0 {
        Seq::empty()
    } else {
        let prev = atlases_of(rs.drop_last(), all);
        if rs.last().atlas == Some(true) { prev.push((rs.last().id@, atlas_of(rs.last(), all))) } else { prev }
    }
}

/// The file entry a resource becomes.
pub open spec fn file_of(r: MSubgroupWrapper) -> (Seq<char>, FileView) {
    (r.id@, FileView {
        kind: r.kind@,
        path: path_view(r.path),
        force_original_vector_symbol_size: r.force_original_vector_symbol_size,
        srcpath: opt_path_view(r.srcpath),
    })
}

/// The packet of a subgroup of atlases: typed as the group is, reading as
/// its atlases, and as no files at all unless an atlas is keyed `data`.
pub open spec fn atlas_packet(g: ShellSubgroupData) -> PacketView {
    let es = atlases_of(resources_of(g), resources_of(g));
    PacketView {
        kind: opt_view(g.res),
        atlases: Some(es),
        files: if exists|i: int| 0 <= i < es.len() && (#[trigger] es[i]).0 == "data"@ { None } else { Some(Seq::empty()) },
    }
}

/// The packet of a subgroup of files: untyped, reading as its resources'
/// file entries and not as atlases.
pub open spec fn file_packet(g: ShellSubgroupData) -> PacketView {
    PacketView {
        kind: None,
        atlases: None,
        files: Some(resources_of(g).map_values(|r: MSubgroupWrapper| file_of(r))),
    }
}

/// The first group of `all` from `i` on with id `id`.
pub open spec fn find_group_from(all: Seq<ShellSubgroupData>, id: Seq<char>, i: int) -> Option<ShellSubgroupData>
    decreases all.len() - i,
{
    if i < 0 || i >= all.len() {
        None
    } else if all[i].id@ == id {
        Some(all[i])
    } else {
        find_group_from(all, id, i + 1)
    }
}

/// A reference names an atlas subgroup when its type is given and is not `0`.
pub open spec fn atlas_ref(res: Option<String>) -> bool {
    res matches Some(r) && r@ != "0"@
}

/// The subgroups of a composite: each reference to a group of `all` (the
/// first with its id; references to no group are left out), as atlases or
/// as files by its type.
pub open spec fn member_entries(all: Seq<ShellSubgroupData>, subs: Seq<SubgroupWrapper>) -> Seq<(Seq<char>, PacketView)>
    decreases subs.len(),
{
    if subs.len() == 0 {
        Seq::empty()
    } else {
        let prev = member_entries(all, subs.drop_last());
        let w = subs.last();
        match find_group_from(all, w.id@, 0) {
            Some(f) => prev.push((w.id@, if atlas_ref(w.res) { atlas_packet(f) } else { file_packet(f) })),
            None => prev,
        }
    }
}

/// The flattened groups of `gs`: each composite with its subgroups, and each
/// group of resources without a parent as a group of itself.
pub open spec fn written_groups(all: Seq<ShellSubgroupData>, gs: Seq<ShellSubgroupData>) -> Seq<(Seq<char>, DictView)>
    decreases gs.len(),
{
    if gs.len() == 0 {
        Seq::empty()
    } else {
        let prev = written_groups(all, gs.drop_last());
        let g = gs.last();
        match g.subgroups {
            Some(subs) => prev.push((g.id@, DictView { is_composite: true, subgroup: member_entries(all, subs@) })),
            None => if g.parent is None && g.resources is Some {
                prev.push((g.id@, DictView { is_composite: false, subgroup: seq![(g.id@, file_packet(g))] }))
            } else {
                prev
            },
        }
    }
}


/// Flattens a manifest (the writer's side of the conversion): each composite
/// becomes a group of its subgroups, each read as atlases or as files as its
/// reference's type says, and each group of resources without a parent
/// becomes a group of itself. Converting never fails.
pub fn convert_resource_group_to_res_info(resource_group: &ResourceGroup, expand_path_str: &str)
    -> (r: Result<ResInfo, ResourcesError>)
    ensures
        r matches Ok(info) && info.expand_path@ == expand_path_str@
            && dict_views(info.groups@) == written_groups(resource_group.groups@, resource_group.groups@),
{
    let groups = crate::resources_write::flatten_groups(resource_group);
    Ok(ResInfo { expand_path: String::from_str(expand_path_str), groups })
}


// ─── Converting there and back ──────────────────────────────────────────────

/// The names of a group's subgroups, in order.
pub open spec fn sub_names(g: GroupDictionary) -> Seq<Seq<char>> {
    g.subgroup@.map_values(|e: (String, MSubgroupData)| e.0@)
}

/// The ids of the groups that one flattened group gives: a composite's
/// name, then its subgroups' names; an independent group's subgroups' names.
pub open spec fn chunk_ids(e: (String, GroupDictionary)) -> Seq<Seq<char>> {
    if e.1.is_composite { seq![e.0@] + sub_names(e.1) } else { sub_names(e.1) }
}

/// The ids of the groups that the flattened groups give, in order.
pub open spec fn built_ids(gs: Seq<(String, GroupDictionary)>) -> Seq<Seq<char>>
    decreases gs.len(),
{
    if gs.len() == 0 { Seq::empty() } else { built_ids(gs.drop_last()) + chunk_ids(gs.last()) }
}

/// No id stands twice.
pub open spec fn distinct_ids(s: Seq<Seq<char>>) -> bool {
    forall|i: int, j: int| 0 <= i < j < s.len() ==> s[i] != s[j]
}

/// A subgroup read as files that flattening gives back as it is: untyped,
/// not reading as atlases.
pub open spec fn file_sub_canonical(d: MSubgroupData) -> bool {
    d.kind is None && d.atlases is Err && d.files is Ok
}

/// Whether an atlas is keyed `data`.
pub open spec fn has_data_key(es: Seq<(Seq<char>, AtlasView)>) -> bool {
    exists|i: int| 0 <= i < es.len() && (#[trigger] es[i]).0 == "data"@
}

/// A subgroup read as atlases that flattening gives back as it is: its
/// atlases keyed distinctly, and reading as files as an atlas packet does.
pub open spec fn atlas_sub_canonical(d: MSubgroupData) -> bool {
    &&& d.atlases matches Ok(es) && forall|i: int, j: int| 0 <= i < j < es@.len() ==> (#[trigger] es@[i]).0@ != (#[trigger] es@[j]).0@
    &&& packet_view(d).files == (if has_data_key(packet_view(d).atlases->0) { None } else { Some(Seq::<(Seq<char>, FileView)>::empty()) })
}

pub open spec fn sub_canonical(d: MSubgroupData) -> bool {
    if reads_atlases(d) { atlas_sub_canonical(d) } else { file_sub_canonical(d) }
}

/// A flattened group in the shape flattening gives: a composite's subgroups
/// canonical, an independent group holding one subgroup of its own name.
pub open spec fn dict_canonical(name: String, g: GroupDictionary) -> bool {
    if g.is_composite {
        forall|k: int| 0 <= k < g.subgroup@.len() ==> sub_canonical((#[trigger] g.subgroup@[k]).1)
    } else {
        &&& g.subgroup@.len() == 1
        &&& g.subgroup@[0].0@ == name@
        &&& file_sub_canonical(g.subgroup@[0].1)
    }
}

/// A flattened layout in the shape flattening gives, whose expanded groups
/// have distinct ids.
pub open spec fn res_info_canonical(gs: Seq<(String, GroupDictionary)>) -> bool {
    &&& distinct_ids(built_ids(gs))
    &&& forall|i: int| 0 <= i < gs.len() ==> dict_canonical((#[trigger] gs[i]).0, gs[i].1)
}

/// Expanding a flattened layout in the shape flattening gives, and
/// flattening the expanded manifest again, gives the same groups: of any
/// manifest that `convert_res_info_to_resource_group` may return for `gs`,
/// `convert_resource_group_to_res_info` writes groups equal to `gs`.
pub proof fn lemma_res_info_roundtrip(gs: Seq<(String, GroupDictionary)>, rg: ResourceGroup)
    requires
        res_info_canonical(gs),
        exists|b: Seq<ShellSubgroupData>| #[trigger] groups_built(b, gs) && slots_rewritten(rg.groups@, b, rg.slot_count),
    ensures
        written_groups(rg.groups@, rg.groups@) == dict_views(gs),
{
    let b = choose|b: Seq<ShellSubgroupData>| #[trigger] groups_built(b, gs) && slots_rewritten(rg.groups@, b, rg.slot_count);
    crate::resources_proof::lemma_res_info_back(gs, b, rg.groups@, rg.slot_count);
}

} // verus!
