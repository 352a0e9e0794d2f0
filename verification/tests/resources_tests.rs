use popcap_formats::resources::{
    convert_res_info_to_resource_group, convert_resource_group_to_res_info, rewrite_slot, SubgroupWrapper, AtlasWrapper, CommonDataWrapper,
    DefaultProperty, Dimension, GroupDictionary, MSubgroupData, MSubgroupWrapper, PathDef,
    ResInfo, ResourceGroup, ResourcesError, ShellSubgroupData, SpriteData,
};

fn resource(id: &str) -> MSubgroupWrapper {
    MSubgroupWrapper {
        kind: "Image".to_string(),
        slot: 99,
        id: id.to_string(),
        path: PathDef::String(format!("images/{}", id)),
        atlas: None,
        runtime: None,
        x: None,
        y: None,
        cols: None,
        rows: None,
        parent: None,
        ax: None,
        ay: None,
        aw: None,
        ah: None,
        width: None,
        height: None,
        force_original_vector_symbol_size: None,
        srcpath: None,
    }
}

fn group(id: &str, rs: Vec<MSubgroupWrapper>) -> ShellSubgroupData {
    ShellSubgroupData {
        id: id.to_string(),
        kind: "simple".to_string(),
        res: None,
        parent: None,
        subgroups: None,
        resources: Some(rs),
    }
}

#[test]
fn test_rewrite_slot_numbers_distinct_ids() {
    let mut rg = ResourceGroup {
        version: Some(1),
        content_version: Some(1),
        slot_count: 0,
        groups: vec![
            group("A", vec![resource("x"), resource("y"), resource("x")]),
            ShellSubgroupData {
                id: "C".to_string(),
                kind: "composite".to_string(),
                res: None,
                parent: None,
                subgroups: Some(vec![]),
                resources: None,
            },
            group("B", vec![resource("z"), resource("y")]),
        ],
    };
    rewrite_slot(&mut rg);
    let slots: Vec<u32> = rg
        .groups
        .iter()
        .flat_map(|g| g.resources.iter().flatten().map(|r| r.slot))
        .collect();
    assert_eq!(slots, vec![0, 1, 0, 2, 1]);
    assert_eq!(rg.slot_count, 3);
    assert_eq!(rg.groups[0].resources.as_ref().unwrap()[1].id, "y");
    assert!(rg.groups[1].resources.is_none());
}

fn files(entries: &[&str]) -> Vec<(String, CommonDataWrapper)> {
    entries
        .iter()
        .map(|k| {
            (
                k.to_string(),
                CommonDataWrapper {
                    kind: "File".to_string(),
                    path: PathDef::Array(vec!["data".to_string(), k.to_string()]),
                    force_original_vector_symbol_size: None,
                    srcpath: None,
                },
            )
        })
        .collect()
}

#[test]
fn test_convert_res_info() {
    let atlas = AtlasWrapper {
        kind: "Image".to_string(),
        path: PathDef::String("atlases/a".to_string()),
        dimension: Dimension { width: 64, height: 32 },
        data: vec![(
            "sprite".to_string(),
            SpriteData {
                kind: "Image".to_string(),
                path: PathDef::String("images/sprite".to_string()),
                defaults: DefaultProperty { ax: 1, ay: 2, aw: 3, ah: 4, x: 0, y: 7, cols: None, rows: Some(2) },
            },
        )],
    };
    let info = ResInfo {
        expand_path: "array".to_string(),
        groups: vec![
            (
                "Comp".to_string(),
                GroupDictionary {
                    is_composite: true,
                    subgroup: vec![
                        (
                            "Comp_1536".to_string(),
                            MSubgroupData {
                                kind: Some("1536".to_string()),
                                atlases: Ok(vec![("ATLAS_A".to_string(), atlas)]),
                                files: Ok(vec![]),
                            },
                        ),
                        (
                            "Comp_Common".to_string(),
                            MSubgroupData { kind: Some("0".to_string()), atlases: Err("no".to_string()), files: Ok(files(&["f1"])) },
                        ),
                    ],
                },
            ),
            (
                "Solo".to_string(),
                GroupDictionary {
                    is_composite: false,
                    subgroup: vec![(
                        "Solo".to_string(),
                        MSubgroupData { kind: None, atlases: Err("no".to_string()), files: Ok(files(&["f1", "f2"])) },
                    )],
                },
            ),
        ],
    };
    let rg = convert_res_info_to_resource_group(info).unwrap();
    assert_eq!(rg.version, Some(1));
    assert_eq!(rg.groups.len(), 4);
    assert_eq!(rg.groups[0].kind, "composite");
    let subs = rg.groups[0].subgroups.as_ref().unwrap();
    assert_eq!(subs.len(), 2);
    assert_eq!(subs[0].res.as_deref(), Some("1536"));
    let img = &rg.groups[1];
    assert_eq!(img.parent.as_deref(), Some("Comp"));
    assert_eq!(img.res.as_deref(), Some("1536"));
    let rs = img.resources.as_ref().unwrap();
    assert_eq!(rs.len(), 2);
    assert_eq!(rs[0].atlas, Some(true));
    assert_eq!(rs[0].width, Some(64));
    assert_eq!(rs[1].parent.as_deref(), Some("ATLAS_A"));
    assert_eq!(rs[1].x, None);
    assert_eq!(rs[1].y, Some(7));
    assert_eq!(rs[1].ah, Some(4));
    assert_eq!(rg.groups[2].res, None);
    assert_eq!(rg.groups[3].parent, None);
    // f1 appears twice and shares its slot.
    assert_eq!(rg.groups[2].resources.as_ref().unwrap()[0].slot, 2);
    assert_eq!(rg.groups[3].resources.as_ref().unwrap()[0].slot, 2);
    assert_eq!(rg.groups[3].resources.as_ref().unwrap()[1].slot, 3);
    assert_eq!(rg.slot_count, 4);
}

#[test]
fn test_convert_res_info_packet_error() {
    let info = ResInfo {
        expand_path: "string".to_string(),
        groups: vec![(
            "G".to_string(),
            GroupDictionary {
                is_composite: false,
                subgroup: vec![(
                    "G".to_string(),
                    MSubgroupData { kind: None, atlases: Ok(vec![]), files: Err("bad packet".to_string()) },
                )],
            },
        )],
    };
    match convert_res_info_to_resource_group(info) {
        Err(ResourcesError::Json(m)) => assert_eq!(m, "bad packet"),
        other => panic!("unexpected: {:?}", other.map(|g| g.slot_count)),
    }
}

fn atlas_manifest() -> ResourceGroup {
    let mut atlas = resource("ATLAS_1536_00");
    atlas.atlas = Some(true);
    atlas.runtime = Some(true);
    atlas.width = Some(2048);
    atlas.height = Some(1024);
    let mut sprite = resource("IMAGE_HEAD");
    sprite.parent = Some("ATLAS_1536_00".to_string());
    sprite.ax = Some(4);
    sprite.ay = Some(8);
    sprite.aw = Some(64);
    sprite.ah = Some(32);
    sprite.x = Some(-3);
    sprite.cols = Some(2);
    let mut atlas_group = group("Zombie_1536", vec![atlas, sprite]);
    atlas_group.res = Some("1536".to_string());
    atlas_group.parent = Some("Zombie".to_string());
    let mut common = group("Zombie_Common", vec![resource("SOUND_GROAN")]);
    common.parent = Some("Zombie".to_string());
    ResourceGroup {
        version: Some(1),
        content_version: Some(1),
        slot_count: 0,
        groups: vec![
            ShellSubgroupData {
                id: "Zombie".to_string(),
                kind: "composite".to_string(),
                res: None,
                parent: None,
                subgroups: Some(vec![
                    SubgroupWrapper { id: "Zombie_1536".to_string(), res: Some("1536".to_string()) },
                    SubgroupWrapper { id: "Zombie_Common".to_string(), res: None },
                    SubgroupWrapper { id: "Missing".to_string(), res: None },
                ]),
                resources: None,
            },
            atlas_group,
            common,
            group("Loose", vec![resource("FONT_A")]),
        ],
    }
}

#[test]
fn flattening_groups_composites_and_loose_groups() {
    let info = convert_resource_group_to_res_info(&atlas_manifest(), "string").unwrap();
    assert_eq!(info.expand_path, "string");
    assert_eq!(info.groups.len(), 2);
    let (name, zombie) = &info.groups[0];
    assert_eq!(name, "Zombie");
    assert!(zombie.is_composite);
    assert_eq!(zombie.subgroup.len(), 2);
    let (sub, atlas_packet) = &zombie.subgroup[0];
    assert_eq!(sub, "Zombie_1536");
    assert_eq!(atlas_packet.kind, Some("1536".to_string()));
    let atlases = atlas_packet.atlases.as_ref().unwrap();
    assert_eq!(atlases.len(), 1);
    assert_eq!(atlases[0].0, "ATLAS_1536_00");
    assert_eq!(atlases[0].1.dimension.width, 2048);
    assert_eq!(atlases[0].1.dimension.height, 1024);
    assert_eq!(atlases[0].1.data.len(), 1);
    assert_eq!(atlases[0].1.data[0].0, "IMAGE_HEAD");
    let d = atlases[0].1.data[0].1.defaults;
    assert_eq!((d.ax, d.ay, d.aw, d.ah, d.x, d.y, d.cols, d.rows), (4, 8, 64, 32, -3, 0, Some(2), None));
    assert!(atlas_packet.files.as_ref().unwrap().is_empty());
    let (sub, common_packet) = &zombie.subgroup[1];
    assert_eq!(sub, "Zombie_Common");
    assert_eq!(common_packet.kind, None);
    assert!(common_packet.atlases.is_err());
    let files = common_packet.files.as_ref().unwrap();
    assert_eq!(files.len(), 1);
    assert_eq!(files[0].0, "SOUND_GROAN");
    let (name, loose) = &info.groups[1];
    assert_eq!(name, "Loose");
    assert!(!loose.is_composite);
    assert_eq!(loose.subgroup.len(), 1);
    assert_eq!(loose.subgroup[0].0, "Loose");
    assert_eq!(loose.subgroup[0].1.files.as_ref().unwrap()[0].0, "FONT_A");
}

#[test]
fn flattening_then_expanding_gives_the_groups_back() {
    let mut rg = atlas_manifest();
    if let Some(subs) = rg.groups[0].subgroups.as_mut() {
        subs.pop();
    }
    let info = convert_resource_group_to_res_info(&rg, "string").unwrap();
    let back = convert_res_info_to_resource_group(info).unwrap();
    let ids: Vec<String> = back.groups.iter().map(|g| g.id.clone()).collect();
    assert_eq!(ids, vec!["Zombie", "Zombie_1536", "Zombie_Common", "Loose"]);
    let atlas_ids: Vec<String> =
        back.groups[1].resources.as_ref().unwrap().iter().map(|r| r.id.clone()).collect();
    assert_eq!(atlas_ids, vec!["ATLAS_1536_00", "IMAGE_HEAD"]);
    let head = &back.groups[1].resources.as_ref().unwrap()[1];
    assert_eq!(head.parent, Some("ATLAS_1536_00".to_string()));
    assert_eq!(head.x, Some(-3));
    assert_eq!(head.y, None);
    assert_eq!(back.slot_count, 4);
}

#[test]
fn expanding_then_flattening_gives_the_flattened_groups_back() {
    let mut rg = atlas_manifest();
    if let Some(subs) = rg.groups[0].subgroups.as_mut() {
        subs.pop();
    }
    let info = convert_resource_group_to_res_info(&rg, "string").unwrap();
    let flattened = format!("{:?}", info.groups);
    let expanded = convert_res_info_to_resource_group(info).unwrap();
    let again = convert_resource_group_to_res_info(&expanded, "string").unwrap();
    assert_eq!(format!("{:?}", again.groups), flattened);
}
