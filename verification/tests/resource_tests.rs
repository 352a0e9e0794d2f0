use popcap_formats::resource::{
    manifest_definition, merge_steps, split_content, ContentGroupDef, ContentJson, ContentSubgroupDef,
    MergeStep, PopCapResourceGroup, ResourceBlock, ResourceComposite, ResourceSubgroupRef,
};

fn manifest() -> Vec<PopCapResourceGroup> {
    vec![
        PopCapResourceGroup::Composite(ResourceComposite {
            id: "WorldMap".to_string(),
            res_type: "composite".to_string(),
            subgroups: vec![
                ResourceSubgroupRef { id: "WorldMap_1536".to_string(), res: Some("1536".to_string()) },
                ResourceSubgroupRef { id: "WorldMap_Common".to_string(), res: None },
            ],
        }),
        PopCapResourceGroup::Resources(ResourceBlock {
            id: "WorldMap_1536".to_string(),
            parent: Some("WorldMap".to_string()),
        }),
        PopCapResourceGroup::Other,
        PopCapResourceGroup::Resources(ResourceBlock { id: "Loose".to_string(), parent: None }),
    ]
}

#[test]
fn split_lists_composites_and_parentless_blocks() {
    let split = split_content(&manifest());
    assert_eq!(split.subgroup_files, vec![1, 3]);
    let groups = &split.content.groups;
    assert_eq!(groups.len(), 2);
    assert_eq!(groups[0].0, "WorldMap");
    assert!(groups[0].1.is_composite);
    let subs: Vec<(String, Option<String>)> =
        groups[0].1.subgroups.iter().map(|(id, s)| (id.clone(), s.res_type.clone())).collect();
    assert_eq!(
        subs,
        vec![("WorldMap_1536".to_string(), Some("1536".to_string())), ("WorldMap_Common".to_string(), None)]
    );
    assert_eq!(groups[1].0, "Loose");
    assert!(!groups[1].1.is_composite);
    assert_eq!(groups[1].1.subgroups.len(), 1);
    assert_eq!(groups[1].1.subgroups[0].0, "Loose");
    assert_eq!(groups[1].1.subgroups[0].1.res_type, None);
}

#[test]
fn merge_puts_composites_before_their_blocks() {
    let content = ContentJson {
        groups: vec![
            (
                "A".to_string(),
                ContentGroupDef {
                    is_composite: true,
                    subgroups: vec![
                        ("A_1".to_string(), ContentSubgroupDef { res_type: Some("768".to_string()) }),
                        ("A_2".to_string(), ContentSubgroupDef { res_type: None }),
                    ],
                },
            ),
            (
                "B".to_string(),
                ContentGroupDef {
                    is_composite: false,
                    subgroups: vec![("B".to_string(), ContentSubgroupDef { res_type: None })],
                },
            ),
        ],
    };
    let steps = merge_steps(&content);
    assert_eq!(steps.len(), 4);
    match &steps[0] {
        MergeStep::Composite(c) => {
            assert_eq!(c.id, "A");
            assert_eq!(c.res_type, "composite");
            assert_eq!(c.subgroups.len(), 2);
            assert_eq!(c.subgroups[0].id, "A_1");
            assert_eq!(c.subgroups[0].res, Some("768".to_string()));
            assert_eq!(c.subgroups[1].res, None);
        }
        other => panic!("unexpected {:?}", other),
    }
    let blocks: Vec<String> = steps[1..]
        .iter()
        .map(|s| match s {
            MergeStep::Block(id) => id.clone(),
            other => panic!("unexpected {:?}", other),
        })
        .collect();
    assert_eq!(blocks, vec!["A_1".to_string(), "A_2".to_string(), "B".to_string()]);
}

#[test]
fn split_then_merge_orders_blocks_under_their_composite() {
    let split = split_content(&manifest());
    let steps = merge_steps(&split.content);
    let names: Vec<String> = steps
        .iter()
        .map(|s| match s {
            MergeStep::Composite(c) => format!("composite {}", c.id),
            MergeStep::Block(id) => format!("block {}", id),
        })
        .collect();
    assert_eq!(
        names,
        vec![
            "composite WorldMap".to_string(),
            "block WorldMap_1536".to_string(),
            "block WorldMap_Common".to_string(),
            "block Loose".to_string(),
        ]
    );
}

#[test]
fn definition_keeps_groups_and_subgroup_ids() {
    let d = manifest_definition(&vec![
        ("G".to_string(), true, vec!["G_1".to_string(), "G_2".to_string()]),
        ("H".to_string(), false, vec![]),
    ]);
    assert_eq!(d.groups.len(), 2);
    assert_eq!(d.groups[0].0, "G");
    assert!(d.groups[0].1.composite);
    assert_eq!(d.groups[0].1.subgroups, vec!["G_1".to_string(), "G_2".to_string()]);
    assert_eq!(d.groups[1].0, "H");
    assert!(!d.groups[1].1.composite);
    assert!(d.groups[1].1.subgroups.is_empty());
}
