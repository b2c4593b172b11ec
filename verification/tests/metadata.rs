use swift_rt::heap::{Heap, OpaqueValue};
use swift_rt::metadata::kind::{
    MetadataKind, CLASS, ENUM, ERROR_OBJECT, EXISTENTIAL, EXISTENTIAL_METATYPE, FOREIGN_CLASS,
    FUNCTION, HEAP_GENERIC_LOCAL_VARIABLE, HEAP_LOCAL_VARIABLE, LAST_ENUMERATED, METATYPE,
    OBJC_CLASS_WRAPPER, OPAQUE, OPTIONAL, STRUCT, TUPLE,
};
use swift_rt::metadata::value_witness::{
    EnumBuffer, EnumValueWitnessTable, ValueSemantics, ValueWitnessTable, HAS_ENUM_WITNESSES,
    IS_NON_INLINE, IS_NON_POD,
};

#[test]
fn kind_values() {
    assert_eq!(CLASS, 0);
    assert_eq!(STRUCT, 0x200);
    assert_eq!(ENUM, 0x201);
    assert_eq!(OPTIONAL, 0x202);
    assert_eq!(FOREIGN_CLASS, 0x203);
    assert_eq!(OPAQUE, 0x264);
    assert_eq!(TUPLE, 0x265);
    assert_eq!(FUNCTION, 0x266);
    assert_eq!(EXISTENTIAL, 0x267);
    assert_eq!(METATYPE, 0x264);
    assert_eq!(OBJC_CLASS_WRAPPER, 0x265);
    assert_eq!(EXISTENTIAL_METATYPE, 0x266);
    assert_eq!(HEAP_LOCAL_VARIABLE, 0x400);
    assert_eq!(HEAP_GENERIC_LOCAL_VARIABLE, 0x464);
    assert_eq!(ERROR_OBJECT, 0x465);
    assert_eq!(LAST_ENUMERATED, 0x7FF);
}

#[test]
fn kinds_that_are_types() {
    assert!(MetadataKind(CLASS).is_type());
    assert!(MetadataKind(STRUCT).is_type());
    assert!(MetadataKind(TUPLE).is_type());
    assert!(!MetadataKind(HEAP_LOCAL_VARIABLE).is_type());
    assert!(!MetadataKind(ERROR_OBJECT).is_type());
}

#[test]
fn nominal_kinds() {
    assert!(MetadataKind(CLASS).is_nominal_type());
    assert!(MetadataKind(STRUCT).is_nominal_type());
    assert!(MetadataKind(ENUM).is_nominal_type());
    assert!(MetadataKind(OPTIONAL).is_nominal_type());
    assert!(!MetadataKind(FOREIGN_CLASS).is_nominal_type());
    assert!(!MetadataKind(TUPLE).is_nominal_type());
    assert!(!MetadataKind(ERROR_OBJECT).is_nominal_type());
}

#[test]
fn runtime_private_kinds() {
    assert!(!MetadataKind(CLASS).is_runtime_private());
    assert!(!MetadataKind(STRUCT).is_runtime_private());
    assert!(MetadataKind(OPAQUE).is_runtime_private());
    assert!(MetadataKind(FUNCTION).is_runtime_private());
    assert!(!MetadataKind(HEAP_LOCAL_VARIABLE).is_runtime_private());
    assert!(MetadataKind(HEAP_GENERIC_LOCAL_VARIABLE).is_runtime_private());
    assert!(MetadataKind(4).is_runtime_private());
    assert!(!MetadataKind(3).is_runtime_private());
}

#[test]
fn isa_pointers() {
    assert!(!MetadataKind(LAST_ENUMERATED).is_isa_ptr());
    assert!(MetadataKind(0x800).is_isa_ptr());
    assert_eq!(MetadataKind(0x800).to_isa_ptr(), 0x800);
    assert_eq!(MetadataKind(0xdead_beef).to_isa_ptr(), 0xdead_beef);
    assert_eq!(MetadataKind(LAST_ENUMERATED).to_isa_ptr(), 0);
    assert_eq!(MetadataKind(CLASS).to_isa_ptr(), 0);
}

#[test]
fn each_kind_is_itself_only() {
    assert!(MetadataKind(CLASS).is_class());
    assert!(!MetadataKind(STRUCT).is_class());
    assert!(MetadataKind(STRUCT).is_struct());
    assert!(MetadataKind(ENUM).is_enum());
    assert!(!MetadataKind(ENUM).is_struct());
    assert!(MetadataKind(OPTIONAL).is_optional());
    assert!(MetadataKind(FOREIGN_CLASS).is_foreign_class());
    assert!(MetadataKind(OPAQUE).is_opaque());
    assert!(MetadataKind(TUPLE).is_tuple());
    assert!(MetadataKind(FUNCTION).is_function());
    assert!(MetadataKind(EXISTENTIAL).is_existential());
    assert!(MetadataKind(METATYPE).is_metatype());
    assert!(MetadataKind(OBJC_CLASS_WRAPPER).is_objc_class_wrapper());
    assert!(MetadataKind(EXISTENTIAL_METATYPE).is_existential_metatype());
    assert!(MetadataKind(HEAP_LOCAL_VARIABLE).is_heap_local_variable());
    assert!(MetadataKind(HEAP_GENERIC_LOCAL_VARIABLE).is_heap_generic_local_variable());
    assert!(MetadataKind(ERROR_OBJECT).is_error_object());
    assert!(!MetadataKind(ERROR_OBJECT).is_heap_local_variable());
}

fn bytes_table(size: usize) -> ValueWitnessTable {
    ValueWitnessTable::new(ValueSemantics::Trivial, size, if size == 0 { 1 } else { size }, 7, 0)
        .unwrap()
}

fn reference_table() -> ValueWitnessTable {
    ValueWitnessTable::new(ValueSemantics::Reference, 8, 8, 7 | IS_NON_POD, 0).unwrap()
}

#[test]
fn table_is_made_of_consistent_facts_only() {
    assert!(ValueWitnessTable::new(ValueSemantics::Trivial, 4, 4, 3, 0).is_some());
    assert!(ValueWitnessTable::new(ValueSemantics::Trivial, 0, 1, 0, 0).is_some());
    assert!(ValueWitnessTable::new(ValueSemantics::Trivial, 0, 0, 0, 0).is_none());
    assert!(ValueWitnessTable::new(ValueSemantics::Trivial, 5, 4, 3, 0).is_none());
    assert!(ValueWitnessTable::new(ValueSemantics::Trivial, 4, 4, 3 | IS_NON_POD, 0).is_none());
    assert!(ValueWitnessTable::new(ValueSemantics::Reference, 8, 8, 7, 0).is_none());
    assert!(ValueWitnessTable::new(ValueSemantics::Reference, 8, 8, 7 | IS_NON_POD, 0).is_some());
}

#[test]
fn flags_are_read_bit_by_bit() {
    let table = ValueWitnessTable::new(
        ValueSemantics::Reference,
        8,
        16,
        0x0F | IS_NON_POD | HAS_ENUM_WITNESSES,
        3,
    )
    .unwrap();
    assert_eq!(table.alignment_mask(), 15);
    assert!(!table.is_pod());
    assert!(table.is_inline());
    assert!(table.has_enum_witnesses());
    assert_eq!(table.size, 8);
    assert_eq!(table.stride, 16);
    assert_eq!(table.extra_inhabitant_count, 3);
    let plain = ValueWitnessTable::new(ValueSemantics::Trivial, 1, 1, IS_NON_INLINE, 0).unwrap();
    assert_eq!(plain.alignment_mask(), 0);
    assert!(plain.is_pod());
    assert!(!plain.is_inline());
    assert!(!plain.has_enum_witnesses());
}

#[test]
fn copy_leaves_both_buffers_valid() {
    let mut heap = Heap::new();
    let table = bytes_table(2);
    let src = Some(OpaqueValue::from_bytes(vec![1, 2]));
    let mut dest = None;
    table.initialize_with_copy(&mut heap, &mut dest, &src);
    assert_eq!(dest, Some(OpaqueValue::from_bytes(vec![1, 2])));
    assert_eq!(src, Some(OpaqueValue::from_bytes(vec![1, 2])));
    let mut other = None;
    table.initialize_buffer_with_copy_of_buffer(&mut heap, &mut other, &src);
    assert_eq!(other, src);
}

#[test]
fn copy_of_a_reference_counts() {
    let mut heap = Heap::new();
    let target = heap.alloc_object(1, 16, 7);
    let table = reference_table();
    let src = Some(OpaqueValue::from_reference(target));
    let mut dest = None;
    table.initialize_with_copy(&mut heap, &mut dest, &src);
    assert_eq!(dest, Some(OpaqueValue::from_reference(target)));
    assert_eq!(heap.retain_count(target), 2);
    table.destroy(&mut heap, &mut dest);
    assert_eq!(dest, None);
    assert_eq!(heap.retain_count(target), 1);
    let mut last = src;
    table.destroy(&mut heap, &mut last);
    assert_eq!(last, None);
    assert!(!heap.is_allocated(target));
    assert_eq!(heap.teardown_count(target), 1);
}

#[test]
fn take_leaves_the_source_invalid() {
    let table = bytes_table(1);
    let mut src = Some(OpaqueValue::from_bytes(vec![5]));
    let mut dest = None;
    table.initialize_with_take(&mut dest, &mut src);
    assert_eq!(dest, Some(OpaqueValue::from_bytes(vec![5])));
    assert_eq!(src, None);
}

#[test]
fn assignment_destroys_what_was_there() {
    let mut heap = Heap::new();
    let old = heap.alloc_object(1, 16, 7);
    let new = heap.alloc_object(1, 16, 7);
    let table = reference_table();
    let mut dest = Some(OpaqueValue::from_reference(old));
    let src = Some(OpaqueValue::from_reference(new));
    table.assign_with_copy(&mut heap, &mut dest, &src);
    assert_eq!(dest, Some(OpaqueValue::from_reference(new)));
    assert_eq!(src, Some(OpaqueValue::from_reference(new)));
    assert!(!heap.is_allocated(old));
    assert_eq!(heap.retain_count(new), 2);

    let third = heap.alloc_object(1, 16, 7);
    let mut moved = Some(OpaqueValue::from_reference(third));
    table.assign_with_take(&mut heap, &mut dest, &mut moved);
    assert_eq!(dest, Some(OpaqueValue::from_reference(third)));
    assert_eq!(moved, None);
    assert_eq!(heap.retain_count(new), 1);
    assert_eq!(heap.retain_count(third), 1);
}

#[test]
fn assignment_of_a_value_to_itself_keeps_it() {
    let mut heap = Heap::new();
    let target = heap.alloc_object(1, 16, 7);
    let table = reference_table();
    let mut dest = Some(OpaqueValue::from_reference(target));
    heap.retain(target);
    let src = Some(OpaqueValue::from_reference(target));
    table.assign_with_copy(&mut heap, &mut dest, &src);
    assert_eq!(heap.retain_count(target), 2);
    assert!(heap.is_live(target));
}

#[test]
fn single_payload_tags() {
    let table = bytes_table(1);
    let mut some = EnumBuffer::Payload(Some(OpaqueValue::from_bytes(vec![1])));
    table.store_enum_tag_single_payload(&mut some, 0, 1);
    assert_eq!(table.get_enum_tag_single_payload(&some, 1), 0);
    let mut none = EnumBuffer::Payload(None);
    table.store_enum_tag_single_payload(&mut none, 1, 1);
    assert_eq!(table.get_enum_tag_single_payload(&none, 1), 1);
    let mut third = EnumBuffer::Payload(None);
    table.store_enum_tag_single_payload(&mut third, 3, 5);
    assert_eq!(table.get_enum_tag_single_payload(&third, 5), 3);
}

#[test]
fn enum_data_is_projected_and_injected() {
    let table = EnumValueWitnessTable { base: bytes_table(1), num_elements: 3 };
    let mut value = EnumBuffer::Case { tag: 2, payload: Some(OpaqueValue::from_bytes(vec![8])) };
    assert_eq!(table.get_enum_tag(&value), 2);
    table.destructive_project_enum_data(&mut value);
    assert!(matches!(&value, EnumBuffer::Payload(Some(payload)) if payload.bytes == vec![8]));
    table.destructive_inject_enum_data(&mut value, 1);
    assert_eq!(table.get_enum_tag(&value), 1);
    assert!(matches!(&value, EnumBuffer::Case { tag: 1, payload: Some(_) }));
}

#[test]
fn aggregate_is_copied_and_destroyed_reference_by_reference() {
    let mut heap = Heap::new();
    let a = heap.alloc_object(1, 16, 7);
    let b = heap.alloc_object(1, 16, 7);
    let table =
        ValueWitnessTable::new(ValueSemantics::Aggregate, 36, 40, 7 | IS_NON_POD, 0).unwrap();
    assert!(table.accepts(&OpaqueValue::new(vec![1, 2, 3, 4], vec![1, 2, 1, 0])));
    assert!(!table.accepts(&OpaqueValue::from_bytes(vec![0; 35])));
    assert!(table.accepts(&OpaqueValue::from_bytes(vec![0; 36])));
    assert!(reference_table().accepts(&OpaqueValue::from_reference(a)));
    assert!(!reference_table().accepts(&OpaqueValue::from_bytes(vec![0; 8])));
    assert!(!reference_table().accepts(&OpaqueValue::new(vec![], vec![a, b])));
    assert!(bytes_table(2).accepts(&OpaqueValue::from_bytes(vec![1, 2])));
    assert!(!bytes_table(2).accepts(&OpaqueValue::from_bytes(vec![1])));
    assert!(!bytes_table(8).accepts(&OpaqueValue::from_reference(a)));
    let src = Some(OpaqueValue::new(vec![1, 2, 3, 4], vec![a, b, a, 0]));
    let mut dest = None;
    table.initialize_with_copy(&mut heap, &mut dest, &src);
    assert_eq!(dest, src);
    assert_eq!(heap.retain_count(a), 3);
    assert_eq!(heap.retain_count(b), 2);
    table.destroy(&mut heap, &mut dest);
    assert_eq!(dest, None);
    assert_eq!(heap.retain_count(a), 1);
    assert_eq!(heap.retain_count(b), 1);
}
