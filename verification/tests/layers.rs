use layer_compositor::geometry::{Rectangle, Scalar, Size, Transformation};
use layer_compositor::layer::{LayerRegistry, LayerSlot, LayerSlotData, SlotStates};
use layer_compositor::texture_cache::{CacheFlags, TextureCache};

fn scalar(x: f32) -> Scalar {
    Scalar { bits: x.to_bits() }
}

fn rectangle(x: f32, y: f32, width: f32, height: f32) -> Rectangle {
    Rectangle { x: scalar(x), y: scalar(y), width: scalar(width), height: scalar(height) }
}

#[test]
fn slots_start_with_the_default_data() {
    let mut flags = CacheFlags::new();
    let mut states = SlotStates::new();
    let cache = TextureCache::new(&mut flags);
    let slot = LayerSlot::new(cache.clone(), &mut states);
    assert_eq!(slot.id().as_u64(), 1);
    assert_eq!(slot.cache().id(), cache.id());
    let data = slot.read(&states);
    assert_eq!(data, LayerSlotData::default());
    assert_eq!(data.transform, Transformation::identity());
    assert_eq!(data.bounds, Rectangle::with_size(Size::zero()));
    assert!(data.parent_id.is_none());
    assert!(data.clip_bounds.is_none());
    assert!(!slot.take_subtree_dirty(&mut states));
}

#[test]
fn identity_and_translation_have_the_expected_matrices() {
    let identity = Transformation::identity();
    let translation = Transformation::translate(scalar(3.0), scalar(-4.0));
    for i in 0..16 {
        let expected = if i % 5 == 0 { 1.0f32 } else { 0.0 };
        assert_eq!(f32::from_bits(identity.matrix[i].bits), expected);
        let expected = match i {
            12 => 3.0,
            13 => -4.0,
            _ => expected,
        };
        assert_eq!(f32::from_bits(translation.matrix[i].bits), expected);
    }
}

#[test]
fn a_read_gives_back_the_last_write() {
    let mut flags = CacheFlags::new();
    let mut states = SlotStates::new();
    let a = LayerSlot::new(TextureCache::new(&mut flags), &mut states);
    let b = LayerSlot::new(TextureCache::new(&mut flags), &mut states);
    a.mark_subtree_dirty(&mut states);
    let bounds = rectangle(1.0, 2.0, 3.0, 4.0);
    let returned = a.write(&mut states, |data| {
        data.bounds = bounds;
        data.parent_id = Some(b.id());
        7
    });
    assert_eq!(returned, 7);
    let clip = rectangle(0.0, 0.0, 9.0, 9.0);
    a.write(&mut states, |data| data.clip_bounds = Some(clip));
    let data = a.read(&states);
    assert_eq!(data.bounds, bounds);
    assert_eq!(data.parent_id, Some(b.id()));
    assert_eq!(data.clip_bounds, Some(clip));
    assert_eq!(b.read(&states), LayerSlotData::default());
    assert!(a.take_subtree_dirty(&mut states));
}

#[test]
fn a_mark_is_taken_once() {
    let mut flags = CacheFlags::new();
    let mut states = SlotStates::new();
    let a = LayerSlot::new(TextureCache::new(&mut flags), &mut states);
    let b = LayerSlot::new(TextureCache::new(&mut flags), &mut states);
    a.mark_subtree_dirty(&mut states);
    a.mark_subtree_dirty(&mut states);
    assert!(!b.take_subtree_dirty(&mut states));
    assert!(a.take_subtree_dirty(&mut states));
    assert!(!a.take_subtree_dirty(&mut states));
    assert_eq!(a.read(&states), LayerSlotData::default());
}

#[test]
fn a_new_registry_is_empty_and_so_is_a_cleared_one() {
    let mut registry = LayerRegistry::new();
    assert!(registry.is_empty());
    assert_eq!(registry.registered().len(), 0);
    registry.clear();
    assert!(registry.is_empty());
    assert!(LayerRegistry::default().is_empty());
}

#[test]
fn released_slots_do_not_give_their_ids_back() {
    let mut flags = CacheFlags::new();
    let mut states = SlotStates::new();
    let a = LayerSlot::new(TextureCache::new(&mut flags), &mut states);
    states.release(a);
    let b = LayerSlot::new(TextureCache::new(&mut flags), &mut states);
    assert_eq!(b.id().as_u64(), 2);
}
