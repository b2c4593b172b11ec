use swift_rt::heap::{get_type_name, Heap, OpaqueValue, TypeNamePair};
use swift_rt::metadata::kind::{MetadataKind, ENUM, STRUCT};
use swift_rt::metadata::value_witness::{
    EnumValueWitnessTable, ValueSemantics, ValueWitnessTable, HAS_ENUM_WITNESSES,
};
use swift_rt::model::Phase;
use swift_rt::obj::{MetaType, Owned, Unowned, Weak};
use swift_rt::object::{AnyObject, Object, ObjectIdentifier};
use swift_rt::ty::{AnyClass, AnyType};

#[test]
fn owned_handle_reads_the_strong_count() {
    let mut heap = Heap::new();
    let owned = Owned::from_ptr(heap.alloc_object(1, 16, 7));
    assert_eq!(owned.as_ptr(), 1);
    assert_eq!(owned.as_non_null(), 1);
    assert_eq!(owned.retain_count(&heap), 1);
    assert_eq!(owned.as_obj(&heap).as_ptr(), owned.as_ptr());
    assert_eq!(owned.as_obj(&heap).strong_retain_count(), 1);
    assert_eq!(owned.as_obj(&heap).unowned_retain_count(), 1);
    assert_eq!(owned.as_obj(&heap).weak_retain_count(), 1);
    owned.retain(&mut heap);
    owned.retain_n(&mut heap, 2);
    owned.nonatomic_retain(&mut heap);
    owned.nonatomic_retain_n(&mut heap, 3);
    assert_eq!(owned.retain_count(&heap), 8);
    owned.release(&mut heap);
    assert_eq!(owned.retain_count(&heap), 7);
}

#[test]
fn clones_then_drops_tear_down_once() {
    let mut heap = Heap::new();
    let first = Owned::from_ptr(heap.alloc_object(1, 16, 7));
    let address = first.as_ptr();
    let mut handles = vec![first];
    for i in 0..5 {
        let clone = if i % 2 == 0 {
            handles[0].clone(&mut heap)
        } else {
            handles[0].nonatomic_clone(&mut heap)
        };
        assert_eq!(clone.as_ptr(), address);
        handles.push(clone);
    }
    assert_eq!(heap.retain_count(address), 6);
    while let Some(handle) = handles.pop() {
        assert_eq!(heap.teardown_count(address), 0);
        handle.drop(&mut heap);
    }
    assert_eq!(heap.teardown_count(address), 1);
    assert_eq!(heap.phase(address), Phase::Freed);
    assert!(!heap.is_allocated(address));
}

#[test]
fn weak_handle_loads_while_the_object_lives() {
    let mut heap = Heap::new();
    let owned = Owned::from_ptr(heap.alloc_object(1, 16, 7));
    let weak = Weak::from_ptr(heap.weak_init(owned.as_ptr()));
    assert_eq!(weak.as_ptr(), 1);
    let loaded = weak.load(&mut heap).unwrap();
    assert_eq!(loaded.as_ptr(), owned.as_ptr());
    assert_eq!(owned.retain_count(&heap), 2);
    loaded.drop(&mut heap);
    assert_eq!(owned.retain_count(&heap), 1);
    assert!(heap.is_live(owned.as_ptr()));
    owned.drop(&mut heap);
    assert!(weak.load(&mut heap).is_none());
    assert!(weak.load(&mut heap).is_none());
    weak.drop(&mut heap);
    assert!(!heap.has_slot(1));
    assert!(!heap.is_allocated(1));
}

#[test]
fn weak_handle_take_ends_the_slot() {
    let mut heap = Heap::new();
    let owned = Owned::from_ptr(heap.alloc_object(1, 16, 7));
    let weak = Weak::from_ptr(heap.weak_init(owned.as_ptr()));
    assert_eq!(heap.weak_retain_count(owned.as_ptr()), 2);
    let taken = weak.take(&mut heap).unwrap();
    assert_eq!(taken.as_ptr(), owned.as_ptr());
    assert_eq!(heap.weak_retain_count(owned.as_ptr()), 1);
    assert_eq!(owned.retain_count(&heap), 2);
    assert!(!heap.has_slot(1));

    let late = Weak::from_ptr(heap.weak_init(owned.as_ptr()));
    taken.drop(&mut heap);
    owned.drop(&mut heap);
    assert!(late.take(&mut heap).is_none());
    assert!(!heap.has_slot(2));
    assert!(!heap.is_allocated(1));
}

#[test]
fn unowned_handle_outlives_the_payload() {
    let mut heap = Heap::new();
    let owned = Owned::from_ptr(heap.alloc_box(1, 1, 7).object);
    heap.initialize_box(owned.as_ptr(), OpaqueValue::from_bytes(vec![1]));
    let unowned = Unowned::from_ptr(heap.unowned_retain(owned.as_ptr()));
    let second = unowned.clone(&mut heap);
    let third = second.nonatomic_clone(&mut heap);
    assert_eq!(unowned.retain_count(&heap), 4);
    owned.drop(&mut heap);
    assert_eq!(unowned.retain_count(&heap), 4);
    assert_eq!(unowned.as_obj(&heap).strong_retain_count(), 0);
    assert!(unowned.as_obj(&heap).payload.is_none());
    assert_eq!(unowned.as_ptr(), 1);
    third.drop(&mut heap);
    second.release(&mut heap);
    assert_eq!(unowned.retain_count(&heap), 2);
    unowned.retain(&mut heap);
    unowned.retain_n(&mut heap, 2);
    unowned.nonatomic_retain(&mut heap);
    unowned.nonatomic_retain_n(&mut heap, 2);
    assert_eq!(unowned.retain_count(&heap), 8);
    heap.unowned_release_n(1, 6);
    assert!(heap.is_allocated(1));
    unowned.drop(&mut heap);
    assert!(!heap.is_allocated(1));
}

#[test]
fn owner_tears_down_by_hand() {
    let mut heap = Heap::new();
    let owned = Owned::from_ptr(heap.alloc_object(1, 16, 7));
    owned.set_deallocating(&mut heap);
    assert_eq!(heap.phase(owned.as_ptr()), Phase::Deiniting);
    assert!(owned.as_obj(&heap).header.ref_counts.deallocating);
    heap.dealloc_object(owned.as_ptr(), 16, 7);
    assert!(!heap.is_allocated(owned.as_ptr()));
}

#[test]
fn any_object_wraps_an_owned_reference() {
    let mut heap = Heap::new();
    let address = heap.alloc_object(1, 16, 7);
    let object = AnyObject::from_ptr(address);
    assert_eq!(object.as_ref().as_ptr(), address);
    let second = object.clone(&mut heap);
    assert_eq!(heap.retain_count(address), 2);
    assert_eq!(second.as_any_object().as_ref().as_ptr(), address);
    assert_eq!(ObjectIdentifier::init_object(&object), ObjectIdentifier::init_object(&second));
    assert_eq!(ObjectIdentifier::init_object(&object).as_ptr(), address);
    let owned = second.into_any_object().into_owned();
    owned.drop(&mut heap);
    let wrapped = AnyObject::from(Owned::from_ptr(address));
    assert_eq!(wrapped.as_ref().as_ptr(), address);
    assert_eq!(heap.retain_count(address), 1);
}

#[test]
fn identifiers_tell_objects_apart() {
    let mut heap = Heap::new();
    let a = AnyObject::from_ptr(heap.alloc_object(1, 16, 7));
    let b = AnyObject::from_ptr(heap.alloc_object(1, 16, 7));
    assert_ne!(ObjectIdentifier::init_object(&a), ObjectIdentifier::init_object(&b));
    assert!(ObjectIdentifier::init_object(&a) < ObjectIdentifier::init_object(&b));
    let ty = AnyType::from_ptr(0x4000);
    assert_eq!(ObjectIdentifier::init_type(&ty).as_ptr(), 0x4000);
    let class = AnyClass::new(AnyType::from_ptr(0x5000));
    assert_eq!(class.as_ref().as_ptr(), 0x5000);
    assert_eq!(AnyType::from(class).as_ptr(), 0x5000);
}

fn point_type() -> MetaType {
    MetaType::new(
        0x7000,
        MetadataKind(STRUCT),
        String::from("Point"),
        String::from("Geometry.Point"),
        ValueWitnessTable::new(ValueSemantics::Trivial, 16, 16, 7, 0).unwrap(),
        None,
    )
    .unwrap()
}

#[test]
fn type_is_named_with_or_without_its_module() {
    let ty = point_type();
    assert_eq!(ty.name(false), "Point");
    assert_eq!(ty.name(true), "Geometry.Point");
    assert_eq!(ty.as_ptr(), 0x7000);
    assert!(ty.kind().is_struct());
    assert_eq!(ty.value_witnesses().size, 16);
    let pair = get_type_name(&ty, true);
    assert_eq!(pair.length, 14);
    assert_eq!(pair.into_bytes(), b"Geometry.Point");
    assert_eq!(get_type_name(&ty, false).into_bytes(), b"Point");
}

#[test]
fn type_name_is_the_first_bytes_of_its_data() {
    let pair = TypeNamePair { data: b"Swift.Int and more", length: 9 };
    assert_eq!(pair.into_bytes(), b"Swift.Int");
    let empty = TypeNamePair { data: b"abc", length: 0 };
    assert_eq!(empty.into_bytes(), b"");
}

#[test]
fn type_with_a_name_beyond_ascii() {
    let ty = MetaType::new(
        1,
        MetadataKind(STRUCT),
        String::from("Café"),
        String::from("Küche.Café"),
        ValueWitnessTable::new(ValueSemantics::Trivial, 0, 1, 0, 0).unwrap(),
        None,
    )
    .unwrap();
    assert_eq!(ty.name(false), "Café");
    assert_eq!(ty.name(true), "Küche.Café");
    assert_eq!(get_type_name(&ty, true).length, 12);
}

#[test]
fn enum_witnesses_stand_beside_the_value_witnesses() {
    let plain = ValueWitnessTable::new(ValueSemantics::Trivial, 1, 1, 0, 0).unwrap();
    let flagged =
        ValueWitnessTable::new(ValueSemantics::Trivial, 1, 1, HAS_ENUM_WITNESSES, 2).unwrap();
    let witnesses = EnumValueWitnessTable { base: flagged, num_elements: 3 };
    let name = || String::from("Direction");
    let ty = MetaType::new(8, MetadataKind(ENUM), name(), name(), flagged, Some(witnesses)).unwrap();
    assert_eq!(ty.enum_witnesses(), Some(witnesses));
    assert!(ty.value_witnesses().has_enum_witnesses());
    assert!(point_type().enum_witnesses().is_none());
    // flagged without the witnesses, witnesses without the flag, witnesses of another table
    assert!(MetaType::new(8, MetadataKind(ENUM), name(), name(), flagged, None).is_none());
    assert!(MetaType::new(
        8,
        MetadataKind(ENUM),
        name(),
        name(),
        plain,
        Some(EnumValueWitnessTable { base: plain, num_elements: 3 })
    )
    .is_none());
    assert!(MetaType::new(
        8,
        MetadataKind(ENUM),
        name(),
        name(),
        flagged,
        Some(EnumValueWitnessTable { base: plain, num_elements: 3 })
    )
    .is_none());
    // no type lies at the null address
    assert!(MetaType::new(0, MetadataKind(STRUCT), name(), name(), plain, None).is_none());
}

#[test]
fn type_allocates_its_boxes() {
    let mut heap = Heap::new();
    let ty = point_type();
    let pair = ty.alloc_box(&mut heap);
    assert_eq!(pair.object, 1);
    assert_eq!(pair.buffer, 1);
    assert_eq!(heap.object(pair.object).header.metadata, 0x7000);
    assert_eq!(heap.object(pair.object).size, 32);
    assert_eq!(heap.object(pair.object).align_mask, 7);
    heap.initialize_box(pair.object, OpaqueValue::from_bytes(vec![0; 16]));
    assert!(ty.value_witnesses().accepts(heap.project_box(pair.object).as_ref().unwrap()));
    heap.retain(pair.object);
    let mut buffer = pair.object;
    let unique = ty.make_box_unique(&mut heap, &mut buffer, 7);
    assert_eq!(unique.object, 2);
    assert_eq!(buffer, 2);
    assert_eq!(heap.object(unique.object).header.metadata, 0x7000);
    assert_eq!(*heap.project_box(2), Some(OpaqueValue::from_bytes(vec![0; 16])));
    let same = ty.make_box_unique(&mut heap, &mut buffer, 7);
    assert_eq!(same.object, 2);
}
