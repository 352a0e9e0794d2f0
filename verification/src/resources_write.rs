//! Building the flattened layout (`res.json`) from the hierarchical one.
use vstd::prelude::*;
use crate::resources::{
    atlas_of, atlas_packet, atlas_view, atlas_views, atlases_of, child_sprite, children_of,
    clone_opt, dict_view, dict_views, file_of, file_packet, file_view, file_views, find_group_from,
    is_atlas_type, member_entries, opt_path_view, packet_view, packet_views, path_view,
    resources_of, sprite_view, sprite_views, str_views, written_groups, AtlasWrapper,
    CommonDataWrapper, DefaultProperty, Dimension, GroupDictionary, MSubgroupData,
    MSubgroupWrapper, PathDef, ResourceGroup, ShellSubgroupData, SpriteData, SubgroupWrapper,
    AtlasView, FileView,
};
use crate::text::str_eq;

verus! {

fn clone_strings(v: &Vec<String>) -> (r: Vec<String>)
    ensures
        str_views(r@) == str_views(v@),
{
    let mut out: Vec<String> = Vec::new();
    let mut k: usize = 0;
    while k < v.len()
        invariant
            k <= v@.len(),
            str_views(out@) == str_views(v@.take(k as int)),
        decreases v@.len() - k,
    {
        let ghost before = out@;
        out.push(v[k].clone());
        proof {
            assert(str_views(out@) =~= str_views(before).push(v@[k as int]@));
            assert(str_views(v@.take(k as int + 1)) =~= str_views(v@.take(k as int)).push(v@[k as int]@));
        }
        k = k + 1;
    }
    assert(v@.take(v@.len() as int) =~= v@);
    out
}

fn clone_path(p: &PathDef) -> (r: PathDef)
    ensures
        path_view(r) == path_view(*p),
{
    match p {
        PathDef::Array(v) => PathDef::Array(clone_strings(v)),
        PathDef::String(t) => PathDef::String(t.clone()),
    }
}

fn clone_opt_path(p: &Option<PathDef>) -> (r: Option<PathDef>)
    ensures
        opt_path_view(r) == opt_path_view(*p),
{
    match p {
        Some(q) => Some(clone_path(q)),
        None => None,
    }
}

fn or_zero_exec(v: Option<u32>) -> (r: u32)
    ensures
        r == crate::resources::or_zero(v),
{
    match v {
        Some(x) => x,
        None => 0,
    }
}

fn or_zero_i_exec(v: Option<i32>) -> (r: i32)
    ensures
        r == crate::resources::or_zero_i(v),
{
    match v {
        Some(x) => x,
        None => 0,
    }
}

/// The sprites of the resources of `all` whose parent is `id`.
fn children(all: &Vec<MSubgroupWrapper>, id: &String) -> (out: Vec<(String, SpriteData)>)
    ensures
        sprite_views(out@) == children_of(all@, id@),
{
    let mut out: Vec<(String, SpriteData)> = Vec::new();
    let mut k: usize = 0;
    while k < all.len()
        invariant
            k <= all@.len(),
            sprite_views(out@) == children_of(all@.take(k as int), id@),
        decreases all@.len() - k,
    {
        let r = &all[k];
        let ghost before = out@;
        proof {
            assert(all@.take(k as int + 1).drop_last() =~= all@.take(k as int));
            assert(all@.take(k as int + 1).last() == all@[k as int]);
        }
        let is_child = match &r.parent {
            Some(p) => str_eq(p.as_str(), id.as_str()),
            None => false,
        };
        if is_child {
            let d = SpriteData {
                kind: r.kind.clone(),
                path: clone_path(&r.path),
                defaults: DefaultProperty {
                    ax: or_zero_exec(r.ax),
                    ay: or_zero_exec(r.ay),
                    aw: or_zero_exec(r.aw),
                    ah: or_zero_exec(r.ah),
                    x: or_zero_i_exec(r.x),
                    y: or_zero_i_exec(r.y),
                    cols: r.cols,
                    rows: r.rows,
                },
            };
            out.push((r.id.clone(), d));
            proof {
                assert(sprite_view(d) == child_sprite(*r));
                assert(sprite_views(out@) =~= sprite_views(before).push((r.id@, child_sprite(*r))));
            }
        }
        k = k + 1;
    }
    assert(all@.take(all@.len() as int) =~= all@);
    out
}

/// The atlases of a group of resources.
fn atlas_list(g: &ShellSubgroupData) -> (out: Vec<(String, AtlasWrapper)>)
    ensures
        atlas_views(out@) == atlases_of(resources_of(*g), resources_of(*g)),
{
    let mut out: Vec<(String, AtlasWrapper)> = Vec::new();
    match &g.resources {
        Some(rs) => {
            let mut k: usize = 0;
            while k < rs.len()
                invariant
                    k <= rs@.len(),
                    resources_of(*g) == rs@,
                    atlas_views(out@) == atlases_of(rs@.take(k as int), rs@),
                decreases rs@.len() - k,
            {
                let r = &rs[k];
                let ghost before = out@;
                proof {
                    assert(rs@.take(k as int + 1).drop_last() =~= rs@.take(k as int));
                    assert(rs@.take(k as int + 1).last() == rs@[k as int]);
                }
                let is_atlas = match r.atlas {
                    Some(b) => b,
                    None => false,
                };
                if is_atlas {
                    let a = AtlasWrapper {
                        kind: r.kind.clone(),
                        path: clone_path(&r.path),
                        dimension: Dimension { width: or_zero_exec(r.width), height: or_zero_exec(r.height) },
                        data: children(rs, &r.id),
                    };
                    out.push((r.id.clone(), a));
                    proof {
                        assert(atlas_view(a) == atlas_of(*r, rs@));
                        assert(atlas_views(out@) =~= atlas_views(before).push((r.id@, atlas_of(*r, rs@))));
                    }
                }
                k = k + 1;
            }
            assert(rs@.take(rs@.len() as int) =~= rs@);
        },
        None => {
            assert(atlas_views(out@) =~= Seq::<(Seq<char>, AtlasView)>::empty());
        },
    }
    out
}

/// Whether an atlas is keyed `data`.
fn has_data_key(v: &Vec<(String, AtlasWrapper)>) -> (r: bool)
    ensures
        r == (exists|i: int| 0 <= i < atlas_views(v@).len() && (#[trigger] atlas_views(v@)[i]).0 == "data"@),
{
    let mut k: usize = 0;
    while k < v.len()
        invariant
            k <= v@.len(),
            forall|i: int| 0 <= i < k ==> (#[trigger] atlas_views(v@)[i]).0 != "data"@,
        decreases v@.len() - k,
    {
        if str_eq(v[k].0.as_str(), "data") {
            assert(atlas_views(v@)[k as int].0 == "data"@);
            return true;
        }
        assert(atlas_views(v@)[k as int].0 == v@[k as int].0@);
        k = k + 1;
    }
    false
}

fn atlas_packet_of(g: &ShellSubgroupData) -> (d: MSubgroupData)
    ensures
        packet_view(d) == atlas_packet(*g),
{
    let es = atlas_list(g);
    let files = if has_data_key(&es) {
        Err("the packet's `data` entry is an atlas, not a list of files".to_string())
    } else {
        let v: Vec<(String, CommonDataWrapper)> = Vec::new();
        assert(file_views(v@) =~= Seq::<(Seq<char>, FileView)>::empty());
        Ok(v)
    };
    MSubgroupData { kind: clone_opt(&g.res), atlases: Ok(es), files }
}

fn file_packet_of(g: &ShellSubgroupData) -> (d: MSubgroupData)
    ensures
        packet_view(d) == file_packet(*g),
{
    let mut out: Vec<(String, CommonDataWrapper)> = Vec::new();
    match &g.resources {
        Some(rs) => {
            let mut k: usize = 0;
            while k < rs.len()
                invariant
                    k <= rs@.len(),
                    file_views(out@) == rs@.take(k as int).map_values(|r: MSubgroupWrapper| file_of(r)),
                decreases rs@.len() - k,
            {
                let r = &rs[k];
                let ghost before = out@;
                let d = CommonDataWrapper {
                    kind: r.kind.clone(),
                    path: clone_path(&r.path),
                    force_original_vector_symbol_size: r.force_original_vector_symbol_size,
                    srcpath: clone_opt_path(&r.srcpath),
                };
                out.push((r.id.clone(), d));
                proof {
                    assert((r.id@, file_view(d)) == file_of(*r));
                    assert(file_views(out@) =~= file_views(before).push(file_of(*r)));
                    assert(rs@.take(k as int + 1).map_values(|r: MSubgroupWrapper| file_of(r)) =~= rs@.take(k as int).map_values(
                        |r: MSubgroupWrapper| file_of(r),
                    ).push(file_of(rs@[k as int])));
                }
                k = k + 1;
            }
            assert(rs@.take(rs@.len() as int) =~= rs@);
        },
        None => {
            assert(file_views(out@) =~= Seq::<(Seq<char>, FileView)>::empty());
            assert(resources_of(*g).map_values(|r: MSubgroupWrapper| file_of(r)) =~= Seq::<(Seq<char>, FileView)>::empty());
        },
    }
    MSubgroupData { kind: None, atlases: Err("the packet is a list of files, not atlases".to_string()), files: Ok(out) }
}

/// The first group of `all` with id `id`.
fn find_group(all: &Vec<ShellSubgroupData>, id: &String) -> (r: Option<usize>)
    ensures
        match r {
            Some(i) => i < all@.len() && find_group_from(all@, id@, 0) == Some(all@[i as int]),
            None => find_group_from(all@, id@, 0) is None,
        },
{
    let mut i: usize = 0;
    while i < all.len()
        invariant
            i <= all@.len(),
            find_group_from(all@, id@, 0) == find_group_from(all@, id@, i as int),
        decreases all@.len() - i,
    {
        if str_eq(all[i].id.as_str(), id.as_str()) {
            return Some(i);
        }
        i = i + 1;
    }
    None
}

/// The subgroups of a composite.
fn composite_entries(all: &Vec<ShellSubgroupData>, subs: &Vec<SubgroupWrapper>) -> (out: Vec<(String, MSubgroupData)>)
    ensures
        packet_views(out@) == member_entries(all@, subs@),
{
    let mut out: Vec<(String, MSubgroupData)> = Vec::new();
    let mut k: usize = 0;
    while k < subs.len()
        invariant
            k <= subs@.len(),
            packet_views(out@) == member_entries(all@, subs@.take(k as int)),
        decreases subs@.len() - k,
    {
        let w = &subs[k];
        let ghost before = out@;
        proof {
            assert(subs@.take(k as int + 1).drop_last() =~= subs@.take(k as int));
            assert(subs@.take(k as int + 1).last() == subs@[k as int]);
        }
        match find_group(all, &w.id) {
            Some(i) => {
                let found = &all[i];
                let d = if is_atlas_type(&w.res) { atlas_packet_of(found) } else { file_packet_of(found) };
                out.push((w.id.clone(), d));
                proof {
                    assert(packet_views(out@) =~= packet_views(before).push((w.id@, packet_view(d))));
                }
            },
            None => {},
        }
        k = k + 1;
    }
    assert(subs@.take(subs@.len() as int) =~= subs@);
    out
}

/// The flattened groups of a manifest.
pub(crate) fn flatten_groups(rg: &ResourceGroup) -> (out: Vec<(String, GroupDictionary)>)
    ensures
        dict_views(out@) == written_groups(rg.groups@, rg.groups@),
{
    let all = &rg.groups;
    let mut out: Vec<(String, GroupDictionary)> = Vec::new();
    let mut k: usize = 0;
    while k < all.len()
        invariant
            k <= all@.len(),
            all@ == rg.groups@,
            dict_views(out@) == written_groups(all@, all@.take(k as int)),
        decreases all@.len() - k,
    {
        let g = &all[k];
        let ghost before = out@;
        proof {
            assert(all@.take(k as int + 1).drop_last() =~= all@.take(k as int));
            assert(all@.take(k as int + 1).last() == all@[k as int]);
        }
        match &g.subgroups {
            Some(subs) => {
                let entries = composite_entries(all, subs);
                let gd = GroupDictionary { is_composite: true, subgroup: entries };
                out.push((g.id.clone(), gd));
                proof {
                    assert(dict_views(out@) =~= dict_views(before).push((g.id@, dict_view(gd))));
                }
            },
            None => {
                if g.parent.is_none() && g.resources.is_some() {
                    let d = file_packet_of(g);
                    let mut entries: Vec<(String, MSubgroupData)> = Vec::new();
                    entries.push((g.id.clone(), d));
                    let gd = GroupDictionary { is_composite: false, subgroup: entries };
                    out.push((g.id.clone(), gd));
                    proof {
                        assert(packet_views(entries@) =~= seq![(g.id@, file_packet(*g))]);
                        assert(dict_views(out@) =~= dict_views(before).push((g.id@, dict_view(gd))));
                    }
                }
            },
        }
        k = k + 1;
    }
    assert(all@.take(all@.len() as int) =~= all@);
    out
}

} // verus!
