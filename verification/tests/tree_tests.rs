use mynode::lcblocks::{LcBlock, LcBlockPayload, PAYLOAD_FILLER_LEN};
use mynode::lcblocktree::LcBlockTree;
use mynode::types::Digest;

fn child(parent: &Digest, text: &str, slot: u64) -> LcBlock {
    LcBlock::new(Some(*parent), LcBlockPayload::new(text.to_string()), slot)
}

#[test]
fn payload_has_filler() {
    let p = LcBlockPayload::new("hello".to_string());
    assert_eq!(p.0, "hello");
    assert_eq!(p.1.len(), PAYLOAD_FILLER_LEN);
    assert!(p.1.iter().all(|b| *b == 0));
}

#[test]
fn genesis_block_is_fixed() {
    let g = LcBlock::genesis();
    assert_eq!(g.parent, None);
    assert_eq!(g.payload.0, "Genesis");
    assert!(g.payload.1.is_empty());
    assert_eq!(g.slot, 0);
    assert_eq!(g.digest(), LcBlock::genesis().digest());
    assert!(!g.is_adversarial());
}

#[test]
fn adversarial_marker_is_a_suffix() {
    let g = LcBlock::genesis().digest();
    assert!(child(&g, "By x at 3 [adv]", 3).is_adversarial());
    assert!(!child(&g, "[adv] By x at 3", 3).is_adversarial());
    assert!(!child(&g, "adv]", 3).is_adversarial());
    assert!(child(&g, "[adv]", 3).is_adversarial());
}

#[test]
fn block_bytes_round_trip() {
    let g = LcBlock::genesis().digest();
    let b = child(&g, "round trip", 17);
    let bytes = b.to_bytes();
    let back = LcBlock::from_bytes(&bytes).ok().unwrap();
    assert!(back.same_content(&b));
    assert_eq!(back.digest(), b.digest());
    assert!(LcBlock::from_bytes(&[1, 2, 3]).is_err());
}

#[test]
fn digest_depends_on_content() {
    let g = LcBlock::genesis().digest();
    let a = child(&g, "a", 1);
    let b = child(&g, "a", 2);
    assert_ne!(a.digest(), b.digest());
    assert!(a.same_content(&a.duplicate()));
    assert!(!a.same_content(&b));
}

#[test]
fn new_tree_holds_genesis_only() {
    let t = LcBlockTree::new();
    let g = LcBlock::genesis().digest();
    assert_eq!(t.height(&g), Ok(0));
    assert_eq!(t.parent(&g), Ok(None));
    assert_eq!(t.height_honest(&g), Ok(0));
    assert_eq!(*t.leading_tip_extending(&g), g);
    assert_eq!(*t.k_deep(5, &g), g);
    assert_eq!(t.block(&g).unwrap().payload.0, "Genesis");
    assert_eq!(t.height(&Digest([7; 32])), Err("Unknown block!"));
}

#[test]
fn heights_follow_the_chain() {
    let mut t = LcBlockTree::new();
    let g = LcBlock::genesis().digest();
    let a = child(&g, "a", 1);
    let da = a.digest();
    assert_eq!(t.try_add(a), Ok(()));
    let b = child(&da, "b", 2);
    let db = b.digest();
    assert_eq!(t.try_add(b), Ok(()));
    assert_eq!(t.height(&da), Ok(1));
    assert_eq!(t.height(&db), Ok(2));
    assert_eq!(t.parent(&db), Ok(Some(da)));
    assert_eq!(*t.k_deep(1, &db), da);
    assert_eq!(*t.k_deep(2, &db), g);
    assert_eq!(*t.k_deep(9, &db), g);
    assert_eq!(*t.leading_tip_extending(&g), db);
    assert_eq!(*t.leading_tip_extending(&da), db);
}

#[test]
fn add_refuses_orphans_and_second_genesis() {
    let mut t = LcBlockTree::new();
    let second_genesis = LcBlock::new(None, LcBlockPayload::new("x".to_string()), 0);
    assert_eq!(t.try_add(second_genesis), Err("Parent is None, there can be only one genesis block!"));
    let orphan = child(&Digest([9; 32]), "orphan", 1);
    assert_eq!(t.try_add(orphan), Err("Parent is unknown!"));
    let g = LcBlock::genesis().digest();
    assert_eq!(*t.leading_tip_extending(&g), g);
}

#[test]
fn adding_the_same_block_twice_is_harmless() {
    let mut t = LcBlockTree::new();
    let g = LcBlock::genesis().digest();
    let a = child(&g, "a", 1);
    let da = a.digest();
    assert_eq!(t.try_add(a.duplicate()), Ok(()));
    assert_eq!(t.try_add(a), Ok(()));
    assert_eq!(t.height(&da), Ok(1));
    assert_eq!(*t.leading_tip_extending(&g), da);
}

#[test]
fn prefix_relation() {
    let mut t = LcBlockTree::new();
    let g = LcBlock::genesis().digest();
    let a = child(&g, "a", 1);
    let da = a.digest();
    t.try_add(a).unwrap();
    let b = child(&da, "b", 2);
    let db = b.digest();
    t.try_add(b).unwrap();
    let c = child(&g, "c", 3);
    let dc = c.digest();
    t.try_add(c).unwrap();
    assert_eq!(t.is_prefix_of(&g, &db), Ok(true));
    assert_eq!(t.is_prefix_of(&da, &db), Ok(true));
    assert_eq!(t.is_prefix_of(&db, &db), Ok(true));
    assert_eq!(t.is_prefix_of(&db, &da), Ok(false));
    assert_eq!(t.is_prefix_of(&dc, &db), Ok(false));
    assert_eq!(t.is_prefix_of(&Digest([1; 32]), &db), Err("Unknown block blk_short_digest!"));
    assert_eq!(t.is_prefix_of(&db, &Digest([1; 32])), Err("Unknown block blk_long_digest!"));
}

#[test]
fn higher_of_prefers_the_first_at_equal_height() {
    let mut t = LcBlockTree::new();
    let g = LcBlock::genesis().digest();
    let a = child(&g, "a", 1);
    let da = a.digest();
    t.try_add(a).unwrap();
    let c = child(&g, "c", 1);
    let dc = c.digest();
    t.try_add(c).unwrap();
    assert_eq!(*t.higher_of(&da, &dc).unwrap(), da);
    assert_eq!(*t.higher_of(&dc, &da).unwrap(), dc);
    assert_eq!(*t.higher_of(&g, &da).unwrap(), da);
    assert_eq!(t.higher_of(&Digest([2; 32]), &da), Err("Unknown block b1!"));
    assert_eq!(t.higher_of(&da, &Digest([2; 32])), Err("Unknown block b2!"));
}

#[test]
fn tie_break_prefers_height_then_adversarial_then_smaller_digest() {
    let mut t = LcBlockTree::new();
    let g = LcBlock::genesis().digest();
    let honest1 = child(&g, "h1", 1);
    let honest2 = child(&g, "h2", 1);
    let adv = child(&g, "x [adv]", 1);
    let (d1, d2, dadv) = (honest1.digest(), honest2.digest(), adv.digest());
    t.try_add(honest1).unwrap();
    t.try_add(honest2).unwrap();
    t.try_add(adv).unwrap();
    let deeper = child(&d1, "deeper", 2);
    let ddeep = deeper.digest();
    t.try_add(deeper).unwrap();

    assert_eq!(*t.tie_break(&ddeep, &dadv), ddeep);
    assert_eq!(*t.tie_break(&dadv, &ddeep), ddeep);
    assert_eq!(*t.tie_break(&d2, &dadv), dadv);
    assert_eq!(*t.tie_break(&dadv, &d2), dadv);
    let smaller = if d1.lt(&d2) { d1 } else { d2 };
    assert_eq!(*t.tie_break(&d1, &d2), smaller);
    assert_eq!(*t.tie_break(&d2, &d1), smaller);
}

#[test]
fn leading_tip_prefers_adversarial_at_equal_height() {
    let mut t = LcBlockTree::new();
    let g = LcBlock::genesis().digest();
    let honest = child(&g, "h", 1);
    let adv = child(&g, "a [adv]", 1);
    let dadv = adv.digest();
    t.try_add(honest).unwrap();
    t.try_add(adv).unwrap();
    assert_eq!(*t.leading_tip_extending(&g), dadv);
}

#[test]
fn leading_tip_stays_above_the_checkpoint() {
    let mut t = LcBlockTree::new();
    let g = LcBlock::genesis().digest();
    let a = child(&g, "a", 1);
    let da = a.digest();
    t.try_add(a).unwrap();
    let b = child(&g, "b", 1);
    let db = b.digest();
    t.try_add(b).unwrap();
    let b2 = child(&db, "b2", 2);
    let db2 = b2.digest();
    t.try_add(b2).unwrap();
    assert_eq!(*t.leading_tip_extending(&g), db2);
    // A checkpoint on the shorter branch keeps the tip on that branch.
    assert_eq!(*t.leading_tip_extending(&da), da);
}

#[test]
fn honest_height_skips_adversarial_blocks() {
    let mut t = LcBlockTree::new();
    let g = LcBlock::genesis().digest();
    let a = child(&g, "a", 1);
    let da = a.digest();
    t.try_add(a).unwrap();
    let x = child(&da, "x [adv]", 2);
    let dx = x.digest();
    t.try_add(x).unwrap();
    let b = child(&dx, "b", 3);
    let db = b.digest();
    t.try_add(b).unwrap();
    assert_eq!(t.height(&db), Ok(3));
    assert_eq!(t.height_honest(&db), Ok(2));
    assert_eq!(t.height_honest(&dx), Ok(1));
    assert_eq!(t.height_honest(&Digest([3; 32])), Err("Unknown block!"));
}

#[test]
fn dot_text_of_a_small_tree() {
    let mut t = LcBlockTree::new();
    let g = LcBlock::genesis().digest();
    let a = child(&g, "say \"hi\"", 1);
    let da = a.digest();
    t.try_add(a).unwrap();
    let dot = t.dump_dot(&vec![da, g], &vec![4, 7]);

    let name = |d: &Digest| d.to_string().replace("+", "").replace("/", "");
    let expected = format!(
        "digraph G_lc {{\n  rankdir=BT;\n  style=filled;\n  color=lightgrey;\n  node [shape=box,style=filled,color=white];\n  lcblk_{} [label=\"{}\\nGenesis\\n[7]\"];\n  lcblk_{} [label=\"{}\\nsay hi\\n[4]\"];\n  lcblk_{} -> lcblk_{};\n}}\n",
        name(&g),
        g.to_string(),
        name(&da),
        da.to_string(),
        name(&da),
        name(&g),
    );
    assert_eq!(dot, expected);
}

#[test]
fn dot_lists_repeated_checkpoints() {
    let t = LcBlockTree::new();
    let g = LcBlock::genesis().digest();
    let dot = t.dump_dot(&vec![g, g, g], &vec![0, 12, 305]);
    assert!(dot.contains("\\nGenesis\\n[0, 12, 305]\"];\n"));
    let empty = t.dump_dot(&vec![], &vec![]);
    assert!(empty.contains("\\nGenesis\\n[]\"];\n"));
    assert!(empty.ends_with("}\n"));
}

#[test]
fn add_reports_its_refusals_and_attaches_known_parents() {
    let mut t = LcBlockTree::new();
    let g = LcBlock::genesis().digest();
    let orphan = child(&Digest([9; 32]), "orphan", 1);
    assert_eq!(t.add(orphan), Err("Parent is unknown!"));
    let second_genesis = LcBlock::new(None, LcBlockPayload::new("again".to_string()), 0);
    assert_eq!(t.add(second_genesis), Err("Parent is None, there can be only one genesis block!"));
    let a = child(&g, "a", 1);
    let da = a.digest();
    assert_eq!(t.add(a), Ok(()));
    assert_eq!(t.height(&da), Ok(1));
    assert_eq!(t.parent(&da), Ok(Some(g)));
}

#[test]
fn leading_tip_heads_a_longest_chain_through_the_checkpoint() {
    let mut t = LcBlockTree::new();
    let g = LcBlock::genesis().digest();
    let a = child(&g, "a", 1);
    let da = a.digest();
    t.try_add(a).unwrap();
    let mut tips = vec![];
    let mut prev = da;
    for i in 0..4 {
        let b = child(&prev, &format!("long {}", i), 2 + i);
        prev = b.digest();
        t.try_add(b).unwrap();
    }
    tips.push(prev);
    let short = child(&da, "short", 2);
    tips.push(short.digest());
    t.try_add(short).unwrap();
    let lead = *t.leading_tip_extending(&da);
    assert_eq!(lead, prev);
    let h = t.height(&lead).unwrap();
    for d in tips {
        assert!(t.height(&d).unwrap() <= h);
    }
}
