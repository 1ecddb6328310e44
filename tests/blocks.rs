use ssa_blocks::block::{BasicBlock, BlockId, BlockType};
use ssa_blocks::construction::{
    create_block, create_first_block, link_with_target, new_sealed_block, new_unsealed_block,
};
use ssa_blocks::context::{IRGenerator, Operation};
use ssa_blocks::dominator::compute_dom;
use ssa_blocks::traversal::bfs;
use ssa_blocks::value_map::NodeId;

fn started() -> (IRGenerator, BlockId) {
    let mut igen = IRGenerator::new();
    create_first_block(&mut igen);
    let e = igen.first_block;
    (igen, e)
}

#[test]
fn entry_block_has_no_dominator_and_is_current() {
    let (igen, e) = started();
    assert_eq!(igen.current_block, e);
    assert_ne!(e, BlockId::dummy());
    let b = igen.get_block(e);
    assert_eq!(b.id, e);
    assert_eq!(b.dominator, None);
    assert_eq!(b.predecessor, vec![BlockId::dummy()]);
    assert_eq!(b.instructions.len(), 1);
    assert_eq!(igen.nodes[b.get_first_instruction().0].operation, Operation::Nop);
    assert!(!igen.is_sealed(e));
}

#[test]
fn sealed_block_is_dominated_by_current_and_sealed() {
    let (mut igen, e) = started();
    let a = new_sealed_block(&mut igen, BlockType::Normal);
    assert_ne!(a, e);
    assert_eq!(igen.current_block, a);
    assert_eq!(igen.first_block, e);
    assert!(igen.is_sealed(a));
    assert_eq!(igen.sealed_blocks, vec![a]);
    let ab = igen.get_block(a);
    assert_eq!(ab.id, a);
    assert_eq!(ab.dominator, Some(e));
    assert_eq!(ab.predecessor, vec![e]);
    assert_eq!(ab.instructions.len(), 1);
    assert_eq!(ab.get_first_instruction(), NodeId(1));
    assert_eq!(igen.get_block(e).left, Some(a));
    assert_eq!(igen.get_block(e).right, None);
}

#[test]
fn unsealed_block_is_not_sealed() {
    let (mut igen, e) = started();
    let b = new_unsealed_block(&mut igen, BlockType::ForJoin, false);
    assert!(!igen.is_sealed(b));
    assert!(igen.sealed_blocks.is_empty());
    assert_eq!(igen.current_block, b);
    let bb = igen.get_block(b);
    assert_eq!(bb.dominator, Some(e));
    assert!(bb.is_join());
    assert!(!bb.instructions.is_empty());
    assert_eq!(igen.get_block(e).right, Some(b));
    assert_eq!(igen.get_block(e).left, None);
}

#[test]
fn unsealed_block_on_left_edge() {
    let (mut igen, e) = started();
    let b = new_unsealed_block(&mut igen, BlockType::Normal, true);
    assert_eq!(igen.get_block(e).left, Some(b));
    assert_eq!(igen.get_block(e).right, None);
    assert!(!igen.get_block(b).is_join());
}

#[test]
fn relink_then_bfs_stops_before_unsealed_block() {
    let (mut igen, e) = started();
    let a = new_sealed_block(&mut igen, BlockType::Normal);
    assert_eq!(igen.current_block, a);
    let b = new_unsealed_block(&mut igen, BlockType::Normal, true);
    assert_eq!(igen.current_block, b);
    link_with_target(&mut igen, a, Some(b), None);
    assert_eq!(igen.get_block(a).left, Some(b));
    assert_eq!(igen.get_block(a).right, None);
    assert_eq!(igen.get_block(b).dominator, Some(a));
    assert_eq!(bfs(e, b, &igen), vec![e, a]);
}

#[test]
fn relink_of_unknown_target_changes_nothing() {
    let (mut igen, e) = started();
    let a = new_sealed_block(&mut igen, BlockType::Normal);
    link_with_target(&mut igen, BlockId::dummy(), Some(e), Some(a));
    assert_eq!(igen.get_block(e).left, Some(a));
    assert_eq!(igen.get_block(e).dominator, None);
    assert_eq!(igen.get_block(a).dominator, Some(e));
}

#[test]
fn relink_sets_both_successors_and_their_dominator() {
    let (mut igen, e) = started();
    let a = new_sealed_block(&mut igen, BlockType::Normal);
    let c = new_sealed_block(&mut igen, BlockType::Normal);
    link_with_target(&mut igen, e, Some(a), Some(c));
    assert_eq!(igen.get_block(e).left, Some(a));
    assert_eq!(igen.get_block(e).right, Some(c));
    assert_eq!(igen.get_block(c).dominator, Some(e));
    assert_eq!(igen.get_block(a).dominator, Some(e));
}

#[test]
fn dominator_children_of_a_chain() {
    let (mut igen, e) = started();
    let c1 = new_sealed_block(&mut igen, BlockType::Normal);
    let c2 = new_sealed_block(&mut igen, BlockType::Normal);
    compute_dom(&mut igen);
    assert_eq!(igen.get_block(e).dominated, vec![c1]);
    assert_eq!(igen.get_block(c1).dominated, vec![c2]);
    assert!(igen.get_block(c2).dominated.is_empty());
}

#[test]
fn dominator_children_of_a_branch() {
    let (mut igen, e) = started();
    let a = new_unsealed_block(&mut igen, BlockType::Normal, true);
    igen.current_block = e;
    let b = new_unsealed_block(&mut igen, BlockType::Normal, false);
    compute_dom(&mut igen);
    let mut children = igen.get_block(e).dominated.clone();
    children.sort_by_key(|id| (id.index, id.generation));
    let mut expected = vec![a, b];
    expected.sort_by_key(|id| (id.index, id.generation));
    assert_eq!(children, expected);
    assert!(igen.get_block(a).dominated.is_empty());
}

#[test]
fn bare_block_has_no_instruction() {
    let (mut igen, e) = started();
    let bare = create_block(&mut igen, BlockType::Normal);
    assert!(bare.instructions.is_empty());
    assert_eq!(bare.predecessor, vec![e]);
    assert_eq!(bare.dominator, None);
    let id = bare.id;
    assert_eq!(igen.current_block, e);
    assert!(igen.contains_block(id));
    assert!(igen.get_block(id).instructions.is_empty());
}

#[test]
fn bfs_on_a_cycle_visits_each_block_once() {
    let (mut igen, e) = started();
    let a = new_sealed_block(&mut igen, BlockType::Normal);
    let b = new_sealed_block(&mut igen, BlockType::ForJoin);
    link_with_target(&mut igen, b, Some(e), Some(a));
    let stop = BlockId::dummy();
    let r = bfs(e, stop, &igen);
    assert_eq!(r, vec![e, a, b]);
    assert_eq!(bfs(a, stop, &igen), vec![a, b, e]);
}

#[test]
fn bfs_from_stop_keeps_start() {
    let (mut igen, e) = started();
    let a = new_sealed_block(&mut igen, BlockType::Normal);
    assert_eq!(bfs(e, e, &igen), vec![e, a]);
    assert_eq!(bfs(a, e, &igen), vec![a]);
}

#[test]
fn bfs_takes_left_before_right() {
    let (mut igen, e) = started();
    let r = new_unsealed_block(&mut igen, BlockType::Normal, false);
    igen.current_block = e;
    let l = new_unsealed_block(&mut igen, BlockType::Normal, true);
    let after_l = new_sealed_block(&mut igen, BlockType::Normal);
    assert_eq!(bfs(e, BlockId::dummy(), &igen), vec![e, l, r, after_l]);
    assert_eq!(bfs(e, l, &igen), vec![e, r]);
}

#[test]
fn update_then_read_variable() {
    let mut block = BasicBlock::new(BlockId::dummy(), BlockType::Normal);
    let x = NodeId(3);
    let y = NodeId(4);
    assert_eq!(block.get_current_value(x), None);
    block.update_variable(x, NodeId(10));
    assert_eq!(block.get_current_value(x), Some(NodeId(10)));
    assert_eq!(block.get_current_value(y), None);
    block.update_variable(x, NodeId(11));
    block.update_variable(y, NodeId(12));
    assert_eq!(block.get_current_value(x), Some(NodeId(11)));
    assert_eq!(block.get_current_value(y), Some(NodeId(12)));
}

#[test]
fn new_block_is_bare() {
    let p = BlockId { index: 2, generation: 1 };
    let block = BasicBlock::new(p, BlockType::ForJoin);
    assert_eq!(block.id, BlockId::dummy());
    assert_eq!(block.predecessor, vec![p]);
    assert!(block.is_join());
    assert!(block.dominated.is_empty());
    assert_eq!(block.left, None);
    assert_eq!(block.right, None);
}

#[test]
fn dummy_handles() {
    assert_eq!(BlockId::dummy(), BlockId { index: usize::MAX, generation: 0 });
    assert_eq!(NodeId::dummy(), NodeId(usize::MAX));
}

#[test]
fn instructions_land_in_the_current_block() {
    let (mut igen, e) = started();
    let n = igen.new_instruction(Operation::Nop);
    assert_eq!(n, NodeId(1));
    assert_eq!(igen.get_block(e).instructions, vec![NodeId(0), NodeId(1)]);
    assert_eq!(igen.nodes[1].block, e);
    assert!(igen.try_get_block(e).is_some());
    assert!(igen.try_get_block(BlockId::dummy()).is_none());
}
