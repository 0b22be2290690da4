use engine3d::components::Component;
use engine3d::world::World;

#[derive(Debug, Clone, PartialEq)]
enum Comp {
    Pos(i64),
    Tag(u32),
    Hp(i64),
}

const POS: usize = 0;
const TAG: usize = 1;
const HP: usize = 2;

impl Component for Comp {
    fn spec_kind(&self) -> usize {
        self.kind()
    }

    fn spec_sparse(&self) -> bool {
        self.is_sparse()
    }

    fn kind(&self) -> usize {
        match self {
            Comp::Pos(_) => POS,
            Comp::Tag(_) => TAG,
            Comp::Hp(_) => HP,
        }
    }

    fn is_sparse(&self) -> bool {
        matches!(self, Comp::Hp(_))
    }
}

#[test]
fn new_world_is_empty() {
    let mut w: World<Comp> = World::new();
    assert_eq!(w.num_entities(), 0);
    assert!(w.borrow_components_mut(POS).is_none());
    assert!(w.borrow_components_sparse_mut(HP).is_none());
}

#[test]
fn add_entity_returns_consecutive_ids() {
    let mut w: World<Comp> = World::new();
    assert_eq!(w.add_entity(), 0);
    assert_eq!(w.add_entity(), 1);
    assert_eq!(w.add_entity(), 2);
    assert_eq!(w.num_entities(), 3);
}

#[test]
fn add_entity_grows_every_dense_store_by_one_empty_slot() {
    let mut w: World<Comp> = World::new();
    let e0 = w.add_entity();
    w.add_component(e0, Comp::Pos(5));
    w.add_component(e0, Comp::Tag(7));

    let _e1 = w.add_entity();

    let pos = w.borrow_components_mut(POS).unwrap();
    assert_eq!(pos.len(), 2);
    assert_eq!(pos[0], Some(Comp::Pos(5)));
    assert_eq!(pos[1], None);
    w.return_components(POS, pos);

    let tags = w.borrow_components_mut(TAG).unwrap();
    assert_eq!(tags.len(), 2);
    assert_eq!(tags[1], None);
    w.return_components(TAG, tags);
}

#[test]
fn component_reads_back_regardless_of_insertion_order() {
    let mut w: World<Comp> = World::new();
    let e0 = w.add_entity();
    let e1 = w.add_entity();

    w.add_component(e1, Comp::Hp(40));
    w.add_component(e0, Comp::Pos(10));
    w.add_component(e1, Comp::Pos(11));
    w.add_component(e0, Comp::Hp(30));
    w.add_component(e0, Comp::Tag(9));

    let pos = w.borrow_components_mut(POS).unwrap();
    assert_eq!(pos[0], Some(Comp::Pos(10)));
    assert_eq!(pos[1], Some(Comp::Pos(11)));
    w.return_components(POS, pos);

    let hp = w.borrow_components_sparse_mut(HP).unwrap();
    assert_eq!(hp.get(&e0), Some(&Comp::Hp(30)));
    assert_eq!(hp.get(&e1), Some(&Comp::Hp(40)));
    w.return_components_sparse(HP, hp);

    let tags = w.borrow_components_mut(TAG).unwrap();
    assert_eq!(tags[0], Some(Comp::Tag(9)));
    assert_eq!(tags[1], None);
    w.return_components(TAG, tags);
}

#[test]
fn overwriting_a_component_keeps_the_latest_value() {
    let mut w: World<Comp> = World::new();
    let e0 = w.add_entity();
    w.add_component(e0, Comp::Pos(1));
    w.add_component(e0, Comp::Pos(2));
    let pos = w.borrow_components_mut(POS).unwrap();
    assert_eq!(pos[0], Some(Comp::Pos(2)));
    w.return_components(POS, pos);

    w.add_component(e0, Comp::Hp(5));
    w.add_component(e0, Comp::Hp(6));
    let hp = w.borrow_components_sparse_mut(HP).unwrap();
    assert_eq!(hp.len(), 1);
    assert_eq!(hp.get(&e0), Some(&Comp::Hp(6)));
    w.return_components_sparse(HP, hp);
}

#[test]
fn remove_entity_clears_one_kind_and_leaves_the_rest() {
    let mut w: World<Comp> = World::new();
    let e0 = w.add_entity();
    let e1 = w.add_entity();
    w.add_component(e0, Comp::Pos(10));
    w.add_component(e1, Comp::Pos(11));
    w.add_component(e0, Comp::Hp(30));
    w.add_component(e1, Comp::Hp(40));

    w.remove_entity(POS, e0);

    let pos = w.borrow_components_mut(POS).unwrap();
    assert_eq!(pos[0], None);
    assert_eq!(pos[1], Some(Comp::Pos(11)));
    w.return_components(POS, pos);

    let hp = w.borrow_components_sparse_mut(HP).unwrap();
    assert_eq!(hp.get(&e0), Some(&Comp::Hp(30)));
    w.return_components_sparse(HP, hp);

    w.remove_entity(HP, e0);
    let hp = w.borrow_components_sparse_mut(HP).unwrap();
    assert_eq!(hp.get(&e0), None);
    assert_eq!(hp.get(&e1), Some(&Comp::Hp(40)));
    w.return_components_sparse(HP, hp);

    assert_eq!(w.num_entities(), 2);
}

#[test]
fn borrowed_store_can_be_edited_and_returned() {
    let mut w: World<Comp> = World::new();
    let e0 = w.add_entity();
    w.add_component(e0, Comp::Pos(1));

    let mut pos = w.borrow_components_mut(POS).unwrap();
    pos[0] = Some(Comp::Pos(99));
    w.return_components(POS, pos);

    let pos = w.borrow_components_mut(POS).unwrap();
    assert_eq!(pos[0], Some(Comp::Pos(99)));
    w.return_components(POS, pos);
}

#[test]
fn clear_drops_stores_and_resets_the_counter() {
    let mut w: World<Comp> = World::new();
    let e0 = w.add_entity();
    w.add_component(e0, Comp::Pos(1));
    w.add_component(e0, Comp::Hp(2));

    w.clear();

    assert_eq!(w.num_entities(), 0);
    assert!(w.borrow_components_mut(POS).is_none());
    assert!(w.borrow_components_sparse_mut(HP).is_none());

    assert_eq!(w.add_entity(), 0);
}
