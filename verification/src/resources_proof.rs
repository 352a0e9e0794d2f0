//! Expanding a flattened layout and flattening it again.
use vstd::prelude::*;
use crate::resources::{
    atlas_of, atlas_resource, atlas_resources, atlas_view, atlas_views, atlases_of, child_sprite,
    children_of, one_atlas, sprite_resource, sprite_resources, sprite_view, sprite_views,
    AtlasView, AtlasWrapper, MSubgroupWrapper, SpriteData, SpriteView, ShellSubgroupData, MSubgroupData,
    member_group, reads_atlases, atlas_sub_canonical, atlas_packet, packet_view, resources_of,
    simple_group, file_resources, file_sub_canonical, file_packet, file_of, file_views,
    find_group_from, written_groups, DictView, SubgroupWrapper, member_entries, packet_views,
    sub_canonical, atlas_ref, PacketView, GroupDictionary, shells_built, dict_canonical, dict_view,
    dict_views, groups_built, shells_of, built_ids, chunk_ids, same_but_slot, group_same_but_slots,
    res_info_canonical, slots_rewritten,
};

verus! {

proof fn lemma_children_append(x: Seq<MSubgroupWrapper>, y: Seq<MSubgroupWrapper>, id: Seq<char>)
    ensures
        children_of(x + y, id) == children_of(x, id) + children_of(y, id),
    decreases y.len(),
{
    if y.len() == 0 {
        assert(x + y =~= x);
        assert(children_of(x, id) + children_of(y, id) =~= children_of(x, id));
    } else {
        lemma_children_append(x, y.drop_last(), id);
        assert((x + y).drop_last() =~= x + y.drop_last());
        assert((x + y).last() == y.last());
        assert(children_of(x + y, id) =~= children_of(x, id) + children_of(y, id));
    }
}

proof fn lemma_atlases_append(x: Seq<MSubgroupWrapper>, y: Seq<MSubgroupWrapper>, all: Seq<MSubgroupWrapper>)
    ensures
        atlases_of(x + y, all) == atlases_of(x, all) + atlases_of(y, all),
    decreases y.len(),
{
    if y.len() == 0 {
        assert(x + y =~= x);
        assert(atlases_of(x, all) + atlases_of(y, all) =~= atlases_of(x, all));
    } else {
        lemma_atlases_append(x, y.drop_last(), all);
        assert((x + y).drop_last() =~= x + y.drop_last());
        assert((x + y).last() == y.last());
        assert(atlases_of(x + y, all) =~= atlases_of(x, all) + atlases_of(y, all));
    }
}

proof fn lemma_child_sprite(k: String, d: SpriteData, parent: String)
    ensures
        child_sprite(sprite_resource(k, d, parent)) == sprite_view(d),
{
}

/// The sprites of an atlas are its children and no other atlas's.
proof fn lemma_children_sprites(ss: Seq<(String, SpriteData)>, parent: String, id: Seq<char>)
    ensures
        children_of(sprite_resources(ss, parent), id) == (if parent@ == id { sprite_views(ss) } else { Seq::empty() }),
    decreases ss.len(),
{
    if ss.len() > 0 {
        let t = ss.drop_last();
        lemma_children_sprites(t, parent, id);
        assert(sprite_resources(ss, parent).drop_last() =~= sprite_resources(t, parent));
        assert(sprite_resources(ss, parent).last() == sprite_resource(ss.last().0, ss.last().1, parent));
        lemma_child_sprite(ss.last().0, ss.last().1, parent);
        if parent@ == id {
            assert(sprite_views(ss) =~= sprite_views(t).push((ss.last().0@, sprite_view(ss.last().1))));
        }
    } else {
        assert(sprite_views(ss) =~= Seq::<(Seq<char>, SpriteView)>::empty());
    }
}

/// Sprites are no atlases.
proof fn lemma_sprites_no_atlases(ss: Seq<(String, SpriteData)>, parent: String, all: Seq<MSubgroupWrapper>)
    ensures
        atlases_of(sprite_resources(ss, parent), all) == Seq::<(Seq<char>, AtlasView)>::empty(),
    decreases ss.len(),
{
    if ss.len() > 0 {
        lemma_sprites_no_atlases(ss.drop_last(), parent, all);
        assert(sprite_resources(ss, parent).drop_last() =~= sprite_resources(ss.drop_last(), parent));
    }
}

proof fn lemma_one_atlas(e: (String, AtlasWrapper), id: Seq<char>, all: Seq<MSubgroupWrapper>)
    ensures
        children_of(one_atlas(e), id) == (if e.0@ == id { sprite_views(e.1.data@) } else { Seq::empty() }),
        atlases_of(one_atlas(e), all) == seq![(e.0@, atlas_of(atlas_resource(e.0, e.1), all))],
{
    let a = seq![atlas_resource(e.0, e.1)];
    let s = sprite_resources(e.1.data@, e.0);
    lemma_children_append(a, s, id);
    lemma_atlases_append(a, s, all);
    lemma_children_sprites(e.1.data@, e.0, id);
    lemma_sprites_no_atlases(e.1.data@, e.0, all);
    assert(a.drop_last() =~= Seq::<MSubgroupWrapper>::empty());
    assert(a.last() == atlas_resource(e.0, e.1));
    assert(children_of(Seq::<MSubgroupWrapper>::empty(), id) == Seq::<(Seq<char>, SpriteView)>::empty());
    assert(atlases_of(Seq::<MSubgroupWrapper>::empty(), all) == Seq::<(Seq<char>, AtlasView)>::empty());
    assert(children_of(a, id) =~= Seq::<(Seq<char>, SpriteView)>::empty());
    assert(atlases_of(a, all) =~= seq![(e.0@, atlas_of(atlas_resource(e.0, e.1), all))]);
    assert(children_of(one_atlas(e), id) =~= children_of(a, id) + children_of(s, id));
    assert(atlases_of(one_atlas(e), all) =~= atlases_of(a, all) + atlases_of(s, all));
}

/// The children of `id` among the resources of distinctly keyed atlases:
/// the sprites of the atlas keyed `id`, if any.
proof fn lemma_children_atlases(xs: Seq<(String, AtlasWrapper)>, id: Seq<char>)
    requires
        forall|i: int, j: int| 0 <= i < j < xs.len() ==> (#[trigger] xs[i]).0@ != (#[trigger] xs[j]).0@,
    ensures
        (forall|i: int| 0 <= i < xs.len() ==> (#[trigger] xs[i]).0@ != id) ==> children_of(atlas_resources(xs), id)
            == Seq::<(Seq<char>, SpriteView)>::empty(),
        forall|i: int| 0 <= i < xs.len() && (#[trigger] xs[i]).0@ == id ==> children_of(atlas_resources(xs), id)
            == sprite_views(xs[i].1.data@),
    decreases xs.len(),
{
    if xs.len() == 0 {
    } else {
        let t = xs.drop_last();
        assert forall|i: int, j: int| 0 <= i < j < t.len() implies (#[trigger] t[i]).0@ != (#[trigger] t[j]).0@ by {
            assert(t[i] == xs[i] && t[j] == xs[j]);
        }
        lemma_children_atlases(t, id);
        lemma_children_append(atlas_resources(t), one_atlas(xs.last()), id);
        lemma_one_atlas(xs.last(), id, Seq::empty());
        let n = xs.len() - 1;
        assert(xs.last() == xs[n]);
        if xs[n].0@ == id {
            assert forall|i: int| 0 <= i < t.len() implies (#[trigger] t[i]).0@ != id by {
                assert(t[i] == xs[i]);
            }
            assert(children_of(atlas_resources(xs), id) =~= sprite_views(xs[n].1.data@));
        } else {
            assert forall|i: int| 0 <= i < xs.len() && (#[trigger] xs[i]).0@ == id implies children_of(atlas_resources(xs), id)
                == sprite_views(xs[i].1.data@) by {
                assert(i < n);
                assert(t[i] == xs[i]);
                assert(children_of(atlas_resources(xs), id) =~= children_of(atlas_resources(t), id));
            }
            if forall|i: int| 0 <= i < xs.len() ==> (#[trigger] xs[i]).0@ != id {
                assert forall|i: int| 0 <= i < t.len() implies (#[trigger] t[i]).0@ != id by {
                    assert(t[i] == xs[i]);
                }
                assert(children_of(atlas_resources(xs), id) =~= Seq::<(Seq<char>, SpriteView)>::empty());
            }
        }
    }
}

/// The atlases among the resources of atlases: one per atlas, in order.
proof fn lemma_atlases_of_atlases(xs: Seq<(String, AtlasWrapper)>, all: Seq<MSubgroupWrapper>)
    ensures
        atlases_of(atlas_resources(xs), all) == xs.map_values(
            |e: (String, AtlasWrapper)| (e.0@, atlas_of(atlas_resource(e.0, e.1), all)),
        ),
    decreases xs.len(),
{
    if xs.len() > 0 {
        let t = xs.drop_last();
        lemma_atlases_of_atlases(t, all);
        lemma_atlases_append(atlas_resources(t), one_atlas(xs.last()), all);
        lemma_one_atlas(xs.last(), Seq::empty(), all);
        assert(xs.map_values(|e: (String, AtlasWrapper)| (e.0@, atlas_of(atlas_resource(e.0, e.1), all))) =~= t.map_values(
            |e: (String, AtlasWrapper)| (e.0@, atlas_of(atlas_resource(e.0, e.1), all)),
        ).push((xs.last().0@, atlas_of(atlas_resource(xs.last().0, xs.last().1), all))));
    } else {
        assert(xs.map_values(|e: (String, AtlasWrapper)| (e.0@, atlas_of(atlas_resource(e.0, e.1), all))) =~= Seq::<
            (Seq<char>, AtlasView),
        >::empty());
    }
}

/// Distinctly keyed atlases, expanded to resources, give back their views.
pub proof fn lemma_atlases_back(es: Seq<(String, AtlasWrapper)>)
    requires
        forall|i: int, j: int| 0 <= i < j < es.len() ==> (#[trigger] es[i]).0@ != (#[trigger] es[j]).0@,
    ensures
        atlases_of(atlas_resources(es), atlas_resources(es)) == atlas_views(es),
{
    let all = atlas_resources(es);
    lemma_atlases_of_atlases(es, all);
    assert forall|i: int| 0 <= i < es.len() implies atlas_of(atlas_resource(es[i].0, es[i].1), all) == atlas_view(
        es[i].1,
    ) by {
        lemma_children_atlases(es, es[i].0@);
        assert(children_of(all, es[i].0@) == sprite_views(es[i].1.data@));
    }
    assert(atlases_of(all, all) =~= atlas_views(es));
}


// ─── Packets ────────────────────────────────────────────────────────────────

/// An atlas subgroup, expanded, flattens back to its packet.
proof fn lemma_atlas_member_back(g: ShellSubgroupData, name: String, parent: String, d: MSubgroupData)
    requires
        member_group(g, name, parent, d),
        reads_atlases(d),
        atlas_sub_canonical(d),
    ensures
        atlas_packet(g) == packet_view(d),
{
    let es = d.atlases->Ok_0;
    assert(resources_of(g) == atlas_resources(es@));
    lemma_atlases_back(es@);
}

/// A file subgroup, expanded, flattens back to its packet.
proof fn lemma_file_member_back(g: ShellSubgroupData, name: String, parent: Option<String>, d: MSubgroupData)
    requires
        d.files matches Ok(es) && simple_group(g, name, parent, None, file_resources(es@)),
        file_sub_canonical(d),
    ensures
        file_packet(g) == packet_view(d),
{
    let es = d.files->Ok_0;
    assert(resources_of(g) == file_resources(es@));
    assert(resources_of(g).map_values(|r: MSubgroupWrapper| file_of(r)) =~= file_views(es@));
}

// ─── Finding groups ─────────────────────────────────────────────────────────

/// The ids of groups are distinct.
pub open spec fn group_ids_distinct(all: Seq<ShellSubgroupData>) -> bool {
    forall|i: int, j: int| 0 <= i < j < all.len() ==> (#[trigger] all[i]).id@ != (#[trigger] all[j]).id@
}

proof fn lemma_find_from(all: Seq<ShellSubgroupData>, i: int, j: int)
    requires
        group_ids_distinct(all),
        0 <= j <= i < all.len(),
    ensures
        find_group_from(all, all[i].id@, j) == Some(all[i]),
    decreases i - j,
{
    if j < i {
        assert(all[j].id@ != all[i].id@);
        lemma_find_from(all, i, j + 1);
    }
}

// ─── Flattening expanded groups ─────────────────────────────────────────────

proof fn lemma_written_append(all: Seq<ShellSubgroupData>, x: Seq<ShellSubgroupData>, y: Seq<ShellSubgroupData>)
    ensures
        written_groups(all, x + y) == written_groups(all, x) + written_groups(all, y),
    decreases y.len(),
{
    if y.len() == 0 {
        assert(x + y =~= x);
        assert(written_groups(all, x) + written_groups(all, y) =~= written_groups(all, x));
    } else {
        lemma_written_append(all, x, y.drop_last());
        assert((x + y).drop_last() =~= x + y.drop_last());
        assert((x + y).last() == y.last());
        assert(written_groups(all, x + y) =~= written_groups(all, x) + written_groups(all, y));
    }
}

/// Groups with a parent and no subgroups flatten to nothing.
proof fn lemma_written_members(all: Seq<ShellSubgroupData>, ms: Seq<ShellSubgroupData>)
    requires
        forall|i: int| 0 <= i < ms.len() ==> (#[trigger] ms[i]).subgroups is None && ms[i].parent is Some,
    ensures
        written_groups(all, ms) == Seq::<(Seq<char>, DictView)>::empty(),
    decreases ms.len(),
{
    if ms.len() > 0 {
        let t = ms.drop_last();
        assert forall|i: int| 0 <= i < t.len() implies (#[trigger] t[i]).subgroups is None && t[i].parent is Some by {
            assert(t[i] == ms[i]);
        }
        lemma_written_members(all, t);
        assert(ms.last() == ms[ms.len() - 1]);
    }
}

/// The subgroups of an expanded composite, found in `all` at `off`, flatten
/// back to the composite's packets.
proof fn lemma_members_back(
    all: Seq<ShellSubgroupData>,
    off: int,
    name: String,
    subs: Seq<(String, MSubgroupData)>,
    ws: Seq<SubgroupWrapper>,
)
    requires
        group_ids_distinct(all),
        0 <= off,
        off + subs.len() <= all.len(),
        ws.len() == subs.len(),
        forall|k: int| 0 <= k < subs.len() ==> member_group(#[trigger] all[off + k], subs[k].0, name, subs[k].1),
        forall|k: int| 0 <= k < subs.len() ==> sub_canonical((#[trigger] subs[k]).1),
        forall|k: int| 0 <= k < ws.len() ==> (#[trigger] ws[k]).id == subs[k].0 && ws[k].res == subs[k].1.kind,
    ensures
        member_entries(all, ws) == packet_views(subs),
    decreases ws.len(),
{
    if ws.len() == 0 {
        assert(packet_views(subs) =~= Seq::<(Seq<char>, PacketView)>::empty());
    } else {
        let n = ws.len() - 1;
        let ts = subs.drop_last();
        let tw = ws.drop_last();
        assert forall|k: int| 0 <= k < ts.len() implies member_group(#[trigger] all[off + k], ts[k].0, name, ts[k].1) by {
            assert(ts[k] == subs[k]);
        }
        assert forall|k: int| 0 <= k < ts.len() implies sub_canonical((#[trigger] ts[k]).1) by {
            assert(ts[k] == subs[k]);
        }
        assert forall|k: int| 0 <= k < tw.len() implies (#[trigger] tw[k]).id == ts[k].0 && tw[k].res == ts[k].1.kind by {
            assert(tw[k] == ws[k] && ts[k] == subs[k]);
        }
        lemma_members_back(all, off, name, ts, tw);
        let m = all[off + n];
        let d = subs[n].1;
        assert(member_group(m, subs[n].0, name, d));
        assert(sub_canonical(d));
        assert(m.id == subs[n].0) by {
            if reads_atlases(d) {
            } else {
            }
        }
        lemma_find_from(all, off + n, 0);
        assert(ws.last() == ws[n]);
        assert(atlas_ref(ws[n].res) == reads_atlases(d));
        if reads_atlases(d) {
            lemma_atlas_member_back(m, subs[n].0, name, d);
        } else {
            lemma_file_member_back(m, subs[n].0, Some(name), d);
        }
        assert(packet_views(subs) =~= packet_views(ts).push((subs[n].0@, packet_view(d))));
    }
}


/// The groups that one flattened group expands to flatten back to it.
proof fn lemma_chunk_back(all: Seq<ShellSubgroupData>, c: Seq<ShellSubgroupData>, off: int, name: String, g: GroupDictionary)
    requires
        group_ids_distinct(all),
        0 <= off,
        off + c.len() <= all.len(),
        forall|i: int| 0 <= i < c.len() ==> all[off + i] == #[trigger] c[i],
        shells_built(c, name, g),
        dict_canonical(name, g),
    ensures
        written_groups(all, c) == seq![(name@, dict_view(g))],
{
    let subs = g.subgroup@;
    if g.is_composite {
        let c0 = c[0];
        let ws = c0.subgroups->0;
        let ms = c.skip(1);
        assert(c =~= seq![c0] + ms);
        lemma_written_append(all, seq![c0], ms);
        assert(seq![c0].drop_last() =~= Seq::<ShellSubgroupData>::empty());
        assert(seq![c0].last() == c0);
        assert(c0.subgroups == Some(ws));
        assert(written_groups(all, Seq::<ShellSubgroupData>::empty()) == Seq::<(Seq<char>, DictView)>::empty());
        assert(written_groups(all, seq![c0]) == Seq::<(Seq<char>, DictView)>::empty().push(
            (c0.id@, DictView { is_composite: true, subgroup: member_entries(all, ws@) }),
        ));
        assert(written_groups(all, seq![c0]) =~= seq![(c0.id@, DictView { is_composite: true, subgroup: member_entries(all, ws@) })]);
        assert forall|i: int| 0 <= i < ms.len() implies (#[trigger] ms[i]).subgroups is None && ms[i].parent is Some by {
            assert(ms[i] == c[i + 1]);
            assert(member_group(c[i + 1], subs[i].0, name, subs[i].1));
        }
        lemma_written_members(all, ms);
        assert forall|k: int| 0 <= k < subs.len() implies member_group(#[trigger] all[off + 1 + k], subs[k].0, name, subs[k].1) by {
            assert(all[off + 1 + k] == c[1 + k]);
        }
        assert forall|k: int| 0 <= k < subs.len() implies sub_canonical((#[trigger] subs[k]).1) by {
            assert(sub_canonical(g.subgroup@[k].1));
        }
        lemma_members_back(all, off + 1, name, subs, ws@);
        assert(written_groups(all, c) =~= seq![(name@, dict_view(g))]);
    } else {
        let c0 = c[0];
        let d = subs[0].1;
        assert(c =~= seq![c0]);
        assert(d.files matches Ok(es) && simple_group(c0, subs[0].0, None, None, file_resources(es@)));
        lemma_file_member_back(c0, subs[0].0, None, d);
        assert(seq![c0].drop_last() =~= Seq::<ShellSubgroupData>::empty());
        assert(seq![c0].last() == c0);
        assert(c0.subgroups is None && c0.parent is None && c0.resources is Some);
        assert(c0.id@ == name@);
        assert(written_groups(all, Seq::<ShellSubgroupData>::empty()) == Seq::<(Seq<char>, DictView)>::empty());
        assert(written_groups(all, seq![c0]) == Seq::<(Seq<char>, DictView)>::empty().push(
            (c0.id@, DictView { is_composite: false, subgroup: seq![(c0.id@, file_packet(c0))] }),
        ));
        assert(packet_views(subs) =~= seq![(subs[0].0@, packet_view(d))]);
        assert(written_groups(all, c) =~= seq![(name@, dict_view(g))]);
    }
}

/// Expanded groups, standing at the start of `all`, flatten back to the
/// canonical flattened groups they came from.
proof fn lemma_built_back(all: Seq<ShellSubgroupData>, b: Seq<ShellSubgroupData>, gs: Seq<(String, GroupDictionary)>)
    requires
        group_ids_distinct(all),
        b.len() <= all.len(),
        forall|i: int| 0 <= i < b.len() ==> all[i] == #[trigger] b[i],
        groups_built(b, gs),
        forall|i: int| 0 <= i < gs.len() ==> dict_canonical((#[trigger] gs[i]).0, gs[i].1),
    ensures
        written_groups(all, b) == dict_views(gs),
    decreases gs.len(),
{
    if gs.len() == 0 {
        assert(dict_views(gs) =~= Seq::<(Seq<char>, DictView)>::empty());
    } else {
        let last = gs.last();
        let n = b.len() - shells_of(last.1);
        let head = b.take(n);
        let c = b.skip(n);
        let t = gs.drop_last();
        assert forall|i: int| 0 <= i < t.len() implies dict_canonical((#[trigger] t[i]).0, t[i].1) by {
            assert(t[i] == gs[i]);
        }
        assert forall|i: int| 0 <= i < head.len() implies all[i] == #[trigger] head[i] by {
            assert(head[i] == b[i]);
        }
        lemma_built_back(all, head, t);
        assert(b =~= head + c);
        lemma_written_append(all, head, c);
        assert forall|i: int| 0 <= i < c.len() implies all[n + i] == #[trigger] c[i] by {
            assert(c[i] == b[n + i]);
        }
        assert(dict_canonical(gs[gs.len() - 1].0, gs[gs.len() - 1].1));
        lemma_chunk_back(all, c, n, last.0, last.1);
        assert(dict_views(gs) =~= dict_views(t).push((last.0@, dict_view(last.1))));
    }
}

/// The ids of expanded groups are the built ids.
proof fn lemma_built_ids(b: Seq<ShellSubgroupData>, gs: Seq<(String, GroupDictionary)>)
    requires
        groups_built(b, gs),
    ensures
        b.len() == built_ids(gs).len(),
        forall|i: int| 0 <= i < b.len() ==> (#[trigger] b[i]).id@ == built_ids(gs)[i],
    decreases gs.len(),
{
    if gs.len() > 0 {
        let last = gs.last();
        let n = b.len() - shells_of(last.1);
        let head = b.take(n);
        let c = b.skip(n);
        lemma_built_ids(head, gs.drop_last());
        let subs = last.1.subgroup@;
        let ci = chunk_ids(last);
        assert(c.len() == ci.len());
        assert forall|k: int| 0 <= k < c.len() implies (#[trigger] c[k]).id@ == ci[k] by {
            if last.1.is_composite {
                if k > 0 {
                    let j = k - 1;
                    assert(c[j + 1] == c[k]);
                    assert(member_group(c[j + 1], subs[j].0, last.0, subs[j].1));
                    assert(c[k].id == subs[j].0);
                }
            } else {
                assert(subs[k].1.files matches Ok(es) && simple_group(c[k], subs[k].0, None, None, file_resources(es@)));
            }
        }
        assert forall|i: int| 0 <= i < b.len() implies (#[trigger] b[i]).id@ == built_ids(gs)[i] by {
            if i < n {
                assert(b[i] == head[i]);
            } else {
                assert(b[i] == c[i - n]);
            }
        }
    }
}


// ─── Slots do not matter ────────────────────────────────────────────────────

/// Resources that differ at most in their slots.
pub open spec fn resources_same(a: Seq<MSubgroupWrapper>, b: Seq<MSubgroupWrapper>) -> bool {
    a.len() == b.len() && forall|i: int| 0 <= i < a.len() ==> same_but_slot(#[trigger] a[i], b[i])
}

/// Groups that differ at most in their resources' slots.
pub open spec fn groups_same(a: Seq<ShellSubgroupData>, b: Seq<ShellSubgroupData>) -> bool {
    a.len() == b.len() && forall|i: int| 0 <= i < a.len() ==> group_same_but_slots(#[trigger] a[i], b[i])
}

proof fn lemma_children_same(a1: Seq<MSubgroupWrapper>, a2: Seq<MSubgroupWrapper>, id: Seq<char>)
    requires
        resources_same(a1, a2),
    ensures
        children_of(a1, id) == children_of(a2, id),
    decreases a1.len(),
{
    if a1.len() > 0 {
        let n = a1.len() - 1;
        assert(resources_same(a1.drop_last(), a2.drop_last())) by {
            assert forall|i: int| 0 <= i < a1.drop_last().len() implies same_but_slot(#[trigger] a1.drop_last()[i], a2.drop_last()[i]) by {
                assert(a1.drop_last()[i] == a1[i] && a2.drop_last()[i] == a2[i]);
            }
        }
        lemma_children_same(a1.drop_last(), a2.drop_last(), id);
        assert(same_but_slot(a1[n], a2[n]));
        assert(a1.last() == a1[n] && a2.last() == a2[n]);
    }
}

proof fn lemma_atlases_same(r1: Seq<MSubgroupWrapper>, all1: Seq<MSubgroupWrapper>, r2: Seq<MSubgroupWrapper>, all2: Seq<MSubgroupWrapper>)
    requires
        resources_same(r1, r2),
        resources_same(all1, all2),
    ensures
        atlases_of(r1, all1) == atlases_of(r2, all2),
    decreases r1.len(),
{
    if r1.len() > 0 {
        let n = r1.len() - 1;
        assert(resources_same(r1.drop_last(), r2.drop_last())) by {
            assert forall|i: int| 0 <= i < r1.drop_last().len() implies same_but_slot(#[trigger] r1.drop_last()[i], r2.drop_last()[i]) by {
                assert(r1.drop_last()[i] == r1[i] && r2.drop_last()[i] == r2[i]);
            }
        }
        lemma_atlases_same(r1.drop_last(), all1, r2.drop_last(), all2);
        assert(same_but_slot(r1[n], r2[n]));
        assert(r1.last() == r1[n] && r2.last() == r2[n]);
        lemma_children_same(all1, all2, r1[n].id@);
    }
}

proof fn lemma_packets_same(g1: ShellSubgroupData, g2: ShellSubgroupData)
    requires
        group_same_but_slots(g1, g2),
    ensures
        atlas_packet(g1) == atlas_packet(g2),
        file_packet(g1) == file_packet(g2),
{
    let r1 = resources_of(g1);
    let r2 = resources_of(g2);
    assert(resources_same(r1, r2));
    lemma_atlases_same(r1, r1, r2, r2);
    assert forall|i: int| 0 <= i < r1.len() implies file_of(#[trigger] r1[i]) == file_of(r2[i]) by {
        assert(same_but_slot(r1[i], r2[i]));
    }
    assert(r1.map_values(|r: MSubgroupWrapper| file_of(r)) =~= r2.map_values(|r: MSubgroupWrapper| file_of(r)));
}

proof fn lemma_find_same(a1: Seq<ShellSubgroupData>, a2: Seq<ShellSubgroupData>, id: Seq<char>, j: int)
    requires
        groups_same(a1, a2),
        0 <= j,
    ensures
        (find_group_from(a1, id, j) is None) == (find_group_from(a2, id, j) is None),
        find_group_from(a1, id, j) matches Some(g1) ==> find_group_from(a2, id, j) matches Some(g2)
            && group_same_but_slots(g1, g2),
    decreases a1.len() - j,
{
    if j < a1.len() {
        assert(group_same_but_slots(a1[j], a2[j]));
        lemma_find_same(a1, a2, id, j + 1);
    }
}

proof fn lemma_members_same(a1: Seq<ShellSubgroupData>, a2: Seq<ShellSubgroupData>, ws: Seq<SubgroupWrapper>)
    requires
        groups_same(a1, a2),
    ensures
        member_entries(a1, ws) == member_entries(a2, ws),
    decreases ws.len(),
{
    if ws.len() > 0 {
        lemma_members_same(a1, a2, ws.drop_last());
        lemma_find_same(a1, a2, ws.last().id@, 0);
        match find_group_from(a1, ws.last().id@, 0) {
            Some(g1) => {
                let g2 = find_group_from(a2, ws.last().id@, 0)->0;
                lemma_packets_same(g1, g2);
            },
            None => {},
        }
    }
}

proof fn lemma_written_same(a1: Seq<ShellSubgroupData>, x1: Seq<ShellSubgroupData>, a2: Seq<ShellSubgroupData>, x2: Seq<ShellSubgroupData>)
    requires
        groups_same(a1, a2),
        groups_same(x1, x2),
    ensures
        written_groups(a1, x1) == written_groups(a2, x2),
    decreases x1.len(),
{
    if x1.len() > 0 {
        let n = x1.len() - 1;
        assert(groups_same(x1.drop_last(), x2.drop_last())) by {
            assert forall|i: int| 0 <= i < x1.drop_last().len() implies group_same_but_slots(#[trigger] x1.drop_last()[i], x2.drop_last()[i]) by {
                assert(x1.drop_last()[i] == x1[i] && x2.drop_last()[i] == x2[i]);
            }
        }
        lemma_written_same(a1, x1.drop_last(), a2, x2.drop_last());
        let g1 = x1[n];
        let g2 = x2[n];
        assert(group_same_but_slots(g1, g2));
        assert(x1.last() == g1 && x2.last() == g2);
        lemma_packets_same(g1, g2);
        match g1.subgroups {
            Some(subs) => {
                lemma_members_same(a1, a2, subs@);
            },
            None => {},
        }
    }
}

/// Expanding a canonical flattened layout (`groups_built`), numbering its
/// resources (`slots_rewritten`) and flattening the result gives the
/// flattened groups back.
pub proof fn lemma_res_info_back(gs: Seq<(String, GroupDictionary)>, b: Seq<ShellSubgroupData>, after: Seq<ShellSubgroupData>, count: u32)
    requires
        res_info_canonical(gs),
        groups_built(b, gs),
        slots_rewritten(after, b, count),
    ensures
        written_groups(after, after) == dict_views(gs),
{
    lemma_built_ids(b, gs);
    assert(group_ids_distinct(b)) by {
        assert forall|i: int, j: int| 0 <= i < j < b.len() implies (#[trigger] b[i]).id@ != (#[trigger] b[j]).id@ by {
            assert(built_ids(gs)[i] != built_ids(gs)[j]);
        }
    }
    lemma_built_back(b, b, gs);
    assert(groups_same(after, b));
    lemma_written_same(after, after, b, b);
}

} // verus!
