//! Splitting a resource manifest (`resources.json`) into a content index and
//! one file per resource block, and the order in which a merge puts them
//! back. The JSON members the split and the merge do not look at (the
//! resources themselves, unknown members) stay with the caller, which reads
//! and writes the files.
use vstd::prelude::*;

verus! {

/// The subgroups of one group of an RSB description.
#[derive(Debug)]
pub struct SubgroupDefinition {
    pub composite: bool,
    pub subgroups: Vec<String>,
}

/// The groups of an RSB description by id, without their subgroups' data.
#[derive(Debug)]
pub struct ManifestDefinition {
    pub groups: Vec<(String, SubgroupDefinition)>,
}

/// A reference from a composite to one of its subgroups.
#[derive(Debug)]
pub struct ResourceSubgroupRef {
    pub id: String,
    pub res: Option<String>,
}

/// A composite group of the manifest.
#[derive(Debug)]
pub struct ResourceComposite {
    pub id: String,
    pub res_type: String,
    pub subgroups: Vec<ResourceSubgroupRef>,
}

/// A block of resources of the manifest: its id and its parent.
#[derive(Debug)]
pub struct ResourceBlock {
    pub id: String,
    pub parent: Option<String>,
}

/// A group of the manifest: a composite, a block of resources, or any other
/// member, which the split leaves out.
#[derive(Debug)]
pub enum PopCapResourceGroup {
    Composite(ResourceComposite),
    Resources(ResourceBlock),
    Other,
}

/// The type a subgroup of the content index names.
#[derive(Debug)]
pub struct ContentSubgroupDef {
    pub res_type: Option<String>,
}

/// A group of the content index, its subgroups by id.
#[derive(Debug)]
pub struct ContentGroupDef {
    pub is_composite: bool,
    pub subgroups: Vec<(String, ContentSubgroupDef)>,
}

/// The content index, its groups by id.
#[derive(Debug)]
pub struct ContentJson {
    pub groups: Vec<(String, ContentGroupDef)>,
}

/// What splitting a manifest gives: the content index, and the positions in
/// the manifest of the blocks that get a file of their own.
#[derive(Debug)]
pub struct RsgSplit {
    pub content: ContentJson,
    pub subgroup_files: Vec<usize>,
}

/// A step of merging: a composite to put in the manifest, or the block
/// stored under an id to read and put in.
#[derive(Debug)]
pub enum MergeStep {
    Composite(ResourceComposite),
    Block(String),
}

// ─── Model ──────────────────────────────────────────────────────────────────

pub open spec fn opt_chars(s: Option<String>) -> Option<Seq<char>> {
    match s {
        Some(t) => Some(t@),
        None => None,
    }
}

/// A content group as values: whether it is a composite, and its subgroups'
/// ids with their types.
pub struct GroupModel {
    pub is_composite: bool,
    pub subgroups: Seq<(Seq<char>, Option<Seq<char>>)>,
}

pub open spec fn sub_model(e: (String, ContentSubgroupDef)) -> (Seq<char>, Option<Seq<char>>) {
    (e.0@, opt_chars(e.1.res_type))
}

pub open spec fn group_model(g: ContentGroupDef) -> GroupModel {
    GroupModel { is_composite: g.is_composite, subgroups: g.subgroups@.map_values(|e: (String, ContentSubgroupDef)| sub_model(e)) }
}

/// The content index as a map from group ids.
pub open spec fn content_map(c: Seq<(String, ContentGroupDef)>) -> Map<Seq<char>, GroupModel>
    decreases c.len(),
{
    if c.len() == 0 {
        Map::empty()
    } else {
        content_map(c.drop_last()).insert(c.last().0@, group_model(c.last().1))
    }
}

/// The group a composite contributes: its subgroups by id, with the types
/// its references name.
pub open spec fn composite_group(refs: Seq<ResourceSubgroupRef>) -> GroupModel {
    GroupModel {
        is_composite: true,
        subgroups: refs.map_values(|r: ResourceSubgroupRef| (r.id@, opt_chars(r.res))),
    }
}

/// The group a block without a parent contributes: itself, of no type.
pub open spec fn block_group(id: Seq<char>) -> GroupModel {
    GroupModel { is_composite: false, subgroups: seq![(id, None::<Seq<char>>)] }
}

/// The content index of the manifest's groups: each composite and each
/// block without a parent under its id, a later one replacing an earlier
/// one of the same id.
pub open spec fn content_of(gs: Seq<PopCapResourceGroup>) -> Map<Seq<char>, GroupModel>
    decreases gs.len(),
{
    if gs.len() == 0 {
        Map::empty()
    } else {
        let m = content_of(gs.drop_last());
        match gs.last() {
            PopCapResourceGroup::Composite(c) => m.insert(c.id@, composite_group(c.subgroups@)),
            PopCapResourceGroup::Resources(b) => if b.parent is None {
                m.insert(b.id@, block_group(b.id@))
            } else {
                m
            },
            PopCapResourceGroup::Other => m,
        }
    }
}

/// The positions of the blocks, in order.
pub open spec fn block_positions(gs: Seq<PopCapResourceGroup>) -> Seq<usize>
    decreases gs.len(),
{
    if gs.len() == 0 {
        Seq::empty()
    } else {
        let ps = block_positions(gs.drop_last());
        if gs.last() is Resources { ps.push((gs.len() - 1) as usize) } else { ps }
    }
}

/// A merge step as values.
pub enum StepModel {
    Composite { id: Seq<char>, kind: Seq<char>, subgroups: Seq<(Seq<char>, Option<Seq<char>>)> },
    Block(Seq<char>),
}

pub open spec fn ref_model(r: ResourceSubgroupRef) -> (Seq<char>, Option<Seq<char>>) {
    (r.id@, opt_chars(r.res))
}

pub open spec fn step_model(s: MergeStep) -> StepModel {
    match s {
        MergeStep::Composite(c) => StepModel::Composite {
            id: c.id@,
            kind: c.res_type@,
            subgroups: c.subgroups@.map_values(|r: ResourceSubgroupRef| ref_model(r)),
        },
        MergeStep::Block(id) => StepModel::Block(id@),
    }
}

pub open spec fn step_models(s: Seq<MergeStep>) -> Seq<StepModel> {
    s.map_values(|t: MergeStep| step_model(t))
}

/// The blocks a group's subgroups name, in order.
pub open spec fn block_steps(subs: Seq<(Seq<char>, Option<Seq<char>>)>) -> Seq<StepModel> {
    subs.map_values(|e: (Seq<char>, Option<Seq<char>>)| StepModel::Block(e.0))
}

/// The steps of one group of the content index: the composite itself,
/// when it is one, then the blocks of its subgroups.
pub open spec fn group_steps(id: Seq<char>, g: GroupModel) -> Seq<StepModel> {
    (if g.is_composite {
        seq![StepModel::Composite { id, kind: "composite"@, subgroups: g.subgroups }]
    } else {
        Seq::empty()
    }) + block_steps(g.subgroups)
}

/// The steps of merging, group after group in the index's order.
pub open spec fn merge_of(c: Seq<(String, ContentGroupDef)>) -> Seq<StepModel>
    decreases c.len(),
{
    if c.len() == 0 {
        Seq::empty()
    } else {
        merge_of(c.drop_last()) + group_steps(c.last().0@, group_model(c.last().1))
    }
}

// ─── Splitting and merging ──────────────────────────────────────────────────

fn composite_def(refs: &Vec<ResourceSubgroupRef>) -> (g: ContentGroupDef)
    ensures
        group_model(g) == composite_group(refs@),
{
    let mut subs: Vec<(String, ContentSubgroupDef)> = Vec::new();
    let mut k: usize = 0;
    while k < refs.len()
        invariant
            k <= refs@.len(),
            subs@.map_values(|e: (String, ContentSubgroupDef)| sub_model(e))
                == refs@.take(k as int).map_values(|r: ResourceSubgroupRef| (r.id@, opt_chars(r.res))),
        decreases refs@.len() - k,
    {
        let r = &refs[k];
        let ghost before = subs@;
        subs.push((r.id.clone(), ContentSubgroupDef { res_type: crate::resources::clone_opt(&r.res) }));
        proof {
            assert(refs@.take(k as int + 1) =~= refs@.take(k as int).push(refs@[k as int]));
            assert(subs@.map_values(|e: (String, ContentSubgroupDef)| sub_model(e)) =~= before.map_values(
                |e: (String, ContentSubgroupDef)| sub_model(e),
            ).push((r.id@, opt_chars(r.res))));
            assert(refs@.take(k as int + 1).map_values(|r: ResourceSubgroupRef| (r.id@, opt_chars(r.res))) =~= refs@.take(
                k as int,
            ).map_values(|r: ResourceSubgroupRef| (r.id@, opt_chars(r.res))).push((r.id@, opt_chars(r.res))));
        }
        k = k + 1;
    }
    assert(refs@.take(refs@.len() as int) =~= refs@);
    ContentGroupDef { is_composite: true, subgroups: subs }
}

/// Splits a manifest: the content index lists each composite with its
/// subgroups and each block without a parent as a group of its own; every
/// block gets a file of its own.
pub fn split_content(groups: &Vec<PopCapResourceGroup>) -> (r: RsgSplit)
    ensures
        content_map(r.content.groups@) == content_of(groups@),
        r.subgroup_files@ == block_positions(groups@),
{
    let mut content: Vec<(String, ContentGroupDef)> = Vec::new();
    let mut files: Vec<usize> = Vec::new();
    let mut i: usize = 0;
    while i < groups.len()
        invariant
            i <= groups@.len(),
            content_map(content@) == content_of(groups@.take(i as int)),
            files@ == block_positions(groups@.take(i as int)),
        decreases groups@.len() - i,
    {
        let ghost c0 = content@;
        let ghost f0 = files@;
        proof {
            assert(groups@.take(i as int + 1).drop_last() =~= groups@.take(i as int));
        }
        match &groups[i] {
            PopCapResourceGroup::Composite(c) => {
                let g = composite_def(&c.subgroups);
                content.push((c.id.clone(), g));
                assert(content@.drop_last() =~= c0);
            },
            PopCapResourceGroup::Resources(b) => {
                files.push(i);
                if b.parent.is_none() {
                    let mut subs: Vec<(String, ContentSubgroupDef)> = Vec::new();
                    subs.push((b.id.clone(), ContentSubgroupDef { res_type: None }));
                    let g = ContentGroupDef { is_composite: false, subgroups: subs };
                    assert(group_model(g) == block_group(b.id@)) by {
                        assert(g.subgroups@.map_values(|e: (String, ContentSubgroupDef)| sub_model(e)) =~= seq![(b.id@, None::<Seq<char>>)]);
                    }
                    content.push((b.id.clone(), g));
                    assert(content@.drop_last() =~= c0);
                }
            },
            PopCapResourceGroup::Other => {},
        }
        i = i + 1;
    }
    assert(groups@.take(groups@.len() as int) =~= groups@);
    RsgSplit { content: ContentJson { groups: content }, subgroup_files: files }
}

/// The order in which a merge puts groups back: for each group of the index,
/// the composite itself (of type `composite`) when it is one, then the
/// blocks of its subgroups.
pub fn merge_steps(content: &ContentJson) -> (steps: Vec<MergeStep>)
    ensures
        step_models(steps@) == merge_of(content.groups@),
{
    let mut out: Vec<MergeStep> = Vec::new();
    let mut i: usize = 0;
    while i < content.groups.len()
        invariant
            i <= content.groups@.len(),
            step_models(out@) == merge_of(content.groups@.take(i as int)),
        decreases content.groups@.len() - i,
    {
        let (id, g) = &content.groups[i];
        let ghost start = out@;
        let ghost gm = group_model(*g);
        if g.is_composite {
            let mut refs: Vec<ResourceSubgroupRef> = Vec::new();
            let mut k: usize = 0;
            while k < g.subgroups.len()
                invariant
                    k <= g.subgroups@.len(),
                    refs@.len() == k,
                    refs@.map_values(|r: ResourceSubgroupRef| ref_model(r)) == gm.subgroups.take(k as int),
                    gm == group_model(*g),
                decreases g.subgroups@.len() - k,
            {
                let ghost before = refs@;
                let e = &g.subgroups[k];
                refs.push(ResourceSubgroupRef { id: e.0.clone(), res: crate::resources::clone_opt(&e.1.res_type) });
                proof {
                    assert(gm.subgroups[k as int] == sub_model(g.subgroups@[k as int]));
                    assert(ref_model(refs@[k as int]) == gm.subgroups[k as int]);
                    assert(refs@.map_values(|r: ResourceSubgroupRef| ref_model(r)) =~= before.map_values(
                        |r: ResourceSubgroupRef| ref_model(r),
                    ).push(ref_model(refs@[k as int])));
                    assert(gm.subgroups.take(k as int + 1) =~= gm.subgroups.take(k as int).push(gm.subgroups[k as int]));
                }
                k = k + 1;
            }
            proof {
                assert(gm.subgroups.take(g.subgroups@.len() as int) =~= gm.subgroups);
                reveal_strlit("composite");
            }
            out.push(MergeStep::Composite(ResourceComposite { id: id.clone(), res_type: "composite".to_string(), subgroups: refs }));
        }
        let ghost mid = out@;
        assert(step_models(mid) =~= step_models(start) + (if gm.is_composite {
            seq![StepModel::Composite { id: id@, kind: "composite"@, subgroups: gm.subgroups }]
        } else {
            Seq::<StepModel>::empty()
        }));
        let mut k: usize = 0;
        while k < g.subgroups.len()
            invariant
                k <= g.subgroups@.len(),
                step_models(out@) == step_models(mid) + block_steps(gm.subgroups).take(k as int),
                gm == group_model(*g),
            decreases g.subgroups@.len() - k,
        {
            let ghost before = out@;
            out.push(MergeStep::Block(g.subgroups[k].0.clone()));
            proof {
                assert(gm.subgroups[k as int] == sub_model(g.subgroups@[k as int]));
                assert(block_steps(gm.subgroups)[k as int] == StepModel::Block(gm.subgroups[k as int].0));
                assert(block_steps(gm.subgroups).take(k as int + 1) =~= block_steps(gm.subgroups).take(k as int).push(
                    StepModel::Block(g.subgroups@[k as int].0@),
                ));
                assert(step_models(out@) =~= step_models(before).push(StepModel::Block(g.subgroups@[k as int].0@)));
            }
            k = k + 1;
        }
        proof {
            assert(block_steps(gm.subgroups).take(g.subgroups@.len() as int) =~= block_steps(gm.subgroups));
            assert(content.groups@.take(i as int + 1).drop_last() =~= content.groups@.take(i as int));
            assert(step_models(out@) =~= step_models(start) + group_steps(id@, gm));
        }
        i = i + 1;
    }
    assert(content.groups@.take(content.groups@.len() as int) =~= content.groups@);
    out
}


/// A group of an RSB description as the split reads it: its id, whether it
/// is a composite, and its subgroups' ids in the order walked.
pub open spec fn description_entry(e: (String, bool, Vec<String>)) -> (Seq<char>, bool, Seq<Seq<char>>) {
    (e.0@, e.1, e.2@.map_values(|t: String| t@))
}

pub open spec fn definition_entry(e: (String, SubgroupDefinition)) -> (Seq<char>, bool, Seq<Seq<char>>) {
    (e.0@, e.1.composite, e.1.subgroups@.map_values(|t: String| t@))
}

fn clone_strings(v: &Vec<String>) -> (r: Vec<String>)
    ensures
        r@.map_values(|t: String| t@) == v@.map_values(|t: String| t@),
{
    let mut out: Vec<String> = Vec::new();
    let mut k: usize = 0;
    while k < v.len()
        invariant
            k <= v@.len(),
            out@.map_values(|t: String| t@) == v@.take(k as int).map_values(|t: String| t@),
        decreases v@.len() - k,
    {
        let ghost before = out@;
        out.push(v[k].clone());
        proof {
            assert(out@.map_values(|t: String| t@) =~= before.map_values(|t: String| t@).push(v@[k as int]@));
            assert(v@.take(k as int + 1).map_values(|t: String| t@) =~= v@.take(k as int).map_values(|t: String| t@).push(
                v@[k as int]@,
            ));
        }
        k = k + 1;
    }
    assert(v@.take(v@.len() as int) =~= v@);
    out
}

/// The definition a split of an RSB description writes: each group with its
/// composite flag and its subgroups' ids, in the order given (where an id
/// stands twice, the later entry counts).
pub fn manifest_definition(groups: &Vec<(String, bool, Vec<String>)>) -> (d: ManifestDefinition)
    ensures
        d.groups@.map_values(|e: (String, SubgroupDefinition)| definition_entry(e))
            == groups@.map_values(|e: (String, bool, Vec<String>)| description_entry(e)),
{
    let mut out: Vec<(String, SubgroupDefinition)> = Vec::new();
    let mut i: usize = 0;
    while i < groups.len()
        invariant
            i <= groups@.len(),
            out@.map_values(|e: (String, SubgroupDefinition)| definition_entry(e))
                == groups@.take(i as int).map_values(|e: (String, bool, Vec<String>)| description_entry(e)),
        decreases groups@.len() - i,
    {
        let ghost before = out@;
        let g = &groups[i];
        let subs = clone_strings(&g.2);
        out.push((g.0.clone(), SubgroupDefinition { composite: g.1, subgroups: subs }));
        proof {
            assert(out@.map_values(|e: (String, SubgroupDefinition)| definition_entry(e)) =~= before.map_values(
                |e: (String, SubgroupDefinition)| definition_entry(e),
            ).push(description_entry(groups@[i as int])));
            assert(groups@.take(i as int + 1).map_values(|e: (String, bool, Vec<String>)| description_entry(e))
                =~= groups@.take(i as int).map_values(|e: (String, bool, Vec<String>)| description_entry(e)).push(
                description_entry(groups@[i as int]),
            ));
        }
        i = i + 1;
    }
    assert(groups@.take(groups@.len() as int) =~= groups@);
    ManifestDefinition { groups: out }
}

} // verus!
