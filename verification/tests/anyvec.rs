//! Tests for the type-erased vector, driving it through the same scenarios
//! a typed facade would: each concrete type gets a tag and a fixed-size
//! byte encoding, and typed reads decode the bytes handed back.

use anyvec::AnyVec;
use anyvec::TypeMismatch;
use anyvec::TypeTag;

#[derive(Debug, PartialEq, Clone)]
struct TestData {
    a: u64,
    b: String,
}

/// 24 bytes: `a` in little-endian, the length of `b`, then `b`'s bytes
/// zero-padded to eight (the tests only store short strings).
const TEST_DATA_SIZE: usize = 24;


fn tag_test_data() -> TypeTag {
    TypeTag { id: 1 }
}

fn tag_str() -> TypeTag {
    TypeTag { id: 2 }
}

fn tag_u8() -> TypeTag {
    TypeTag { id: 3 }
}

fn tag_u16() -> TypeTag {
    TypeTag { id: 4 }
}

fn tag_i32() -> TypeTag {
    TypeTag { id: 5 }
}

fn encode_str_field(s: &str) -> Vec<u8> {
    assert!(s.len() <= 8);
    let mut out = Vec::new();
    out.extend_from_slice(&(s.len() as u64).to_le_bytes());
    let mut content = [0u8; 8];
    content[..s.len()].copy_from_slice(s.as_bytes());
    out.extend_from_slice(&content);
    out
}

fn decode_str_field(bytes: &[u8]) -> String {
    let mut l8 = [0u8; 8];
    l8.copy_from_slice(&bytes[0..8]);
    let l = u64::from_le_bytes(l8) as usize;
    String::from_utf8(bytes[8..8 + l].to_vec()).unwrap()
}

fn encode_test_data(d: &TestData) -> Vec<u8> {
    let mut out = Vec::new();
    out.extend_from_slice(&d.a.to_le_bytes());
    out.extend_from_slice(&encode_str_field(&d.b));
    out
}

fn decode_test_data(bytes: &[u8]) -> TestData {
    let mut a8 = [0u8; 8];
    a8.copy_from_slice(&bytes[0..8]);
    TestData { a: u64::from_le_bytes(a8), b: decode_str_field(&bytes[8..24]) }
}

fn test_data(a: u64) -> TestData {
    TestData { a, b: "Test".to_string() }
}

fn push_test_data(vec: &mut AnyVec, a: u64) {
    vec.push(tag_test_data(), &encode_test_data(&test_data(a)));
}

fn insert_test_data(vec: &mut AnyVec, index: usize, a: u64) {
    vec.insert(index, tag_test_data(), &encode_test_data(&test_data(a)));
}

fn get_test_data(vec: &AnyVec, index: usize) -> Result<Option<TestData>, TypeMismatch> {
    match vec.get(index, tag_test_data()) {
        Ok(Some(bytes)) => Ok(Some(decode_test_data(bytes))),
        Ok(None) => Ok(None),
        Err(e) => Err(e),
    }
}

fn remove_test_data(vec: &mut AnyVec, index: usize) -> Result<TestData, TypeMismatch> {
    vec.remove(index, tag_test_data()).map(|bytes| decode_test_data(&bytes))
}

fn pop_test_data(vec: &mut AnyVec) -> Result<Option<TestData>, TypeMismatch> {
    match vec.pop(tag_test_data()) {
        Ok(Some(bytes)) => Ok(Some(decode_test_data(&bytes))),
        Ok(None) => Ok(None),
        Err(e) => Err(e),
    }
}

#[test]
fn capacity() {
    assert_eq!(AnyVec::with_capacity(8, 64).capacity(64), 8);
    assert_eq!(AnyVec::with_capacity(8, 64).capacity(32), 8);
    assert_eq!(AnyVec::with_capacity(16, 64).capacity(64), 16);
    assert_eq!(AnyVec::with_capacity(16, 32).capacity(64), 8);
    assert_eq!(AnyVec::with_capacity(8, 20).capacity(16), 8);
    assert_eq!(AnyVec::with_capacity(8, 16).capacity(20), 6);
}

#[test]
fn reserve() {
    let mut vec = AnyVec::new();
    vec.reserve(8, 64);
    assert!(vec.capacity(64) >= 8);
    let mut vec = AnyVec::new();
    vec.reserve(8, 64);
    assert!(vec.capacity(32) >= 8);
    let mut vec = AnyVec::new();
    vec.reserve(16, 64);
    assert!(vec.capacity(64) >= 16);
    let mut vec = AnyVec::new();
    vec.reserve(16, 32);
    assert!(vec.capacity(64) >= 8);
    let mut vec = AnyVec::new();
    vec.reserve(8, 20);
    assert!(vec.capacity(16) >= 8);
    let mut vec = AnyVec::new();
    vec.reserve(8, 16);
    assert!(vec.capacity(20) >= 6);
}

#[test]
fn reserve_exact() {
    let mut vec = AnyVec::new();
    vec.reserve_exact(8, 64);
    assert!(vec.capacity(64) >= 8);
    let mut vec = AnyVec::new();
    vec.reserve_exact(8, 64);
    assert!(vec.capacity(32) >= 8);
    let mut vec = AnyVec::new();
    vec.reserve_exact(16, 64);
    assert!(vec.capacity(64) >= 16);
    let mut vec = AnyVec::new();
    vec.reserve_exact(16, 32);
    assert!(vec.capacity(64) >= 8);
    let mut vec = AnyVec::new();
    vec.reserve_exact(8, 20);
    assert!(vec.capacity(16) >= 8);
    let mut vec = AnyVec::new();
    vec.reserve_exact(8, 16);
    assert!(vec.capacity(20) >= 6);
}

#[test]
fn shrink_to_fit() {
    let mut vec = AnyVec::with_capacity(4, 1);
    vec.push(tag_u8(), &[0u8]);
    vec.push(tag_u8(), &[1u8]);
    vec.shrink_to_fit();
    assert_eq!(vec.capacity(1), 2);

    let mut vec = AnyVec::with_capacity(8, 2);
    vec.push(tag_u16(), &0u16.to_le_bytes());
    vec.push(tag_u16(), &1u16.to_le_bytes());
    vec.push(tag_u16(), &2u16.to_le_bytes());
    vec.shrink_to_fit();
    assert_eq!(vec.capacity(2), 3);

    let mut vec = AnyVec::with_capacity(8, TEST_DATA_SIZE);
    push_test_data(&mut vec, 0);
    push_test_data(&mut vec, 1);
    vec.shrink_to_fit();
    assert_eq!(vec.capacity(TEST_DATA_SIZE), 2);
}

#[test]
fn truncate() {
    let mut vec = AnyVec::new();
    vec.push(tag_i32(), &0i32.to_le_bytes());
    vec.push(tag_i32(), &1i32.to_le_bytes());
    vec.push(tag_i32(), &2i32.to_le_bytes());
    vec.push(tag_i32(), &3i32.to_le_bytes());
    vec.truncate(2);
    assert_eq!(vec.len(), 2);

    let mut vec = AnyVec::new();
    push_test_data(&mut vec, 0);
    push_test_data(&mut vec, 1);
    push_test_data(&mut vec, 2);
    push_test_data(&mut vec, 3);
    vec.truncate(3);
    assert_eq!(vec.len(), 3);
}

#[test]
fn insert() {
    let mut vec = AnyVec::new();
    insert_test_data(&mut vec, 0, 1);
    insert_test_data(&mut vec, 1, 2);
    insert_test_data(&mut vec, 0, 0);
    insert_test_data(&mut vec, 3, 3);
    assert_eq!(get_test_data(&vec, 0).unwrap().unwrap().a, 0);
    assert_eq!(get_test_data(&vec, 0).unwrap().unwrap().b, "Test");
    assert_eq!(get_test_data(&vec, 1).unwrap().unwrap().a, 1);
    assert_eq!(get_test_data(&vec, 2).unwrap().unwrap().a, 2);
    assert_eq!(get_test_data(&vec, 3).unwrap().unwrap().a, 3);
}

#[test]
fn remove() {
    let mut vec = AnyVec::new();
    insert_test_data(&mut vec, 0, 1);
    insert_test_data(&mut vec, 1, 2);
    insert_test_data(&mut vec, 0, 0);
    insert_test_data(&mut vec, 3, 3);

    assert_eq!(remove_test_data(&mut vec, 2).unwrap().a, 2);
    assert_eq!(get_test_data(&vec, 0).unwrap().unwrap().a, 0);
    assert_eq!(remove_test_data(&mut vec, 1).unwrap().a, 1);
    assert_eq!(get_test_data(&vec, 0).unwrap().unwrap().a, 0);
    assert_eq!(remove_test_data(&mut vec, 0).unwrap().a, 0);
    assert_eq!(get_test_data(&vec, 0).unwrap().unwrap().a, 3);
}

#[test]
fn is() {
    let mut vec = AnyVec::new();
    push_test_data(&mut vec, 0);
    vec.push(tag_str(), &encode_str_field("Test"));
    vec.push(tag_u8(), &[0u8]);

    assert!(vec.is(0, tag_test_data()).unwrap());
    assert!(vec.is(1, tag_str()).unwrap());
    assert!(!vec.is(1, tag_test_data()).unwrap());
    assert!(vec.is(2, tag_u8()).unwrap());
}

#[test]
fn get() {
    let mut vec = AnyVec::new();
    push_test_data(&mut vec, 0);
    push_test_data(&mut vec, 0);
    push_test_data(&mut vec, 0);
    push_test_data(&mut vec, 0);

    assert_eq!(get_test_data(&vec, 0).unwrap().unwrap().a, 0);
    let mut d = get_test_data(&vec, 0).unwrap().unwrap();
    d.a += 1;
    vec.get_mut(0, tag_test_data(), &encode_test_data(&d)).unwrap().unwrap();
    assert_eq!(get_test_data(&vec, 0).unwrap().unwrap().a, 1);
    assert_eq!(get_test_data(&vec, 2).unwrap().unwrap().a, 0);
}

#[test]
fn push_pop() {
    let mut vec = AnyVec::new();
    push_test_data(&mut vec, 0);
    push_test_data(&mut vec, 1);
    push_test_data(&mut vec, 2);

    assert_eq!(pop_test_data(&mut vec).unwrap().unwrap().a, 2);

    push_test_data(&mut vec, 3);

    assert_eq!(pop_test_data(&mut vec).unwrap().unwrap().a, 3);
    assert_eq!(pop_test_data(&mut vec).unwrap().unwrap().a, 1);
    assert_eq!(pop_test_data(&mut vec).unwrap().unwrap().a, 0);
}

#[test]
fn append() {
    let mut vec1 = AnyVec::new();
    push_test_data(&mut vec1, 0);
    push_test_data(&mut vec1, 1);
    push_test_data(&mut vec1, 2);

    let mut vec2 = AnyVec::new();
    push_test_data(&mut vec2, 3);
    push_test_data(&mut vec2, 4);
    push_test_data(&mut vec2, 5);
    vec2.push(tag_str(), &encode_str_field("Test"));

    vec1.append(&mut vec2);
    for i in 0..6 {
        assert_eq!(get_test_data(&vec1, i).unwrap().unwrap().a, i as u64);
    }
    assert!(vec1.is(6, tag_str()).unwrap());
}

#[test]
fn clear() {
    let mut vec = AnyVec::new();
    push_test_data(&mut vec, 0);
    push_test_data(&mut vec, 1);
    push_test_data(&mut vec, 2);
    vec.clear();
    assert_eq!(vec.len(), 0);
    assert!(vec.is_empty());
}

#[test]
fn split_off() {
    let mut vec1 = AnyVec::new();
    push_test_data(&mut vec1, 0);
    push_test_data(&mut vec1, 1);
    push_test_data(&mut vec1, 2);
    push_test_data(&mut vec1, 3);
    push_test_data(&mut vec1, 4);
    push_test_data(&mut vec1, 5);

    let vec2 = vec1.split_off(4);
    assert_eq!(vec1.len(), 4);
    assert_eq!(vec2.len(), 2);
    assert_eq!(get_test_data(&vec2, 0).unwrap().unwrap().a, 4);
}

#[test]
fn scenario_insert_get() {
    let mut vec = AnyVec::new();
    push_test_data(&mut vec, 1);
    push_test_data(&mut vec, 2);
    insert_test_data(&mut vec, 0, 0);
    assert_eq!(get_test_data(&vec, 0).unwrap().unwrap(), test_data(0));
    assert_eq!(get_test_data(&vec, 1).unwrap().unwrap(), test_data(1));
    assert_eq!(get_test_data(&vec, 2).unwrap().unwrap(), test_data(2));
}

#[test]
fn scenario_typed_remove_shifts() {
    // Four elements of four distinct types at indices 0..3.
    let mut vec = AnyVec::new();
    vec.push(tag_u8(), &[7u8]);
    vec.push(tag_u16(), &513u16.to_le_bytes());
    vec.push(tag_i32(), &(-9i32).to_le_bytes());
    push_test_data(&mut vec, 11);

    // Removing index 2 with its own type returns it...
    let removed = vec.remove(2, tag_i32()).unwrap();
    let mut c4 = [0u8; 4];
    c4.copy_from_slice(&removed);
    assert_eq!(i32::from_le_bytes(c4), -9);

    // ...and index 2 now holds what was at index 3.
    assert_eq!(vec.len(), 3);
    assert_eq!(get_test_data(&vec, 2).unwrap().unwrap(), test_data(11));
}

#[test]
fn scenario_append_rebases_offsets() {
    // One 24-byte element gives the receiver an arena length of 24.
    let mut x = AnyVec::new();
    push_test_data(&mut x, 0);

    // The appended container's first slot sat at offset zero.
    let mut y = AnyVec::new();
    y.push(tag_u8(), &[0xABu8]);
    y.push(tag_u16(), &600u16.to_le_bytes());

    x.append(&mut y);
    assert_eq!(x.len(), 3);
    assert!(y.is_empty());
    // The re-based slots still find their bytes after the 24 arena bytes.
    assert_eq!(x.get(1, tag_u8()).unwrap().unwrap(), &[0xABu8][..]);
    assert_eq!(x.get(2, tag_u16()).unwrap().unwrap(), &600u16.to_le_bytes()[..]);
}

#[test]
fn scenario_split_off_boundary() {
    let mut vec = AnyVec::new();
    vec.push(tag_u8(), &[0u8]);
    vec.push(tag_u16(), &1u16.to_le_bytes());
    push_test_data(&mut vec, 2);
    vec.push(tag_i32(), &3i32.to_le_bytes());
    vec.push(tag_u8(), &[4u8]);
    push_test_data(&mut vec, 5);

    let tail = vec.split_off(4);
    assert_eq!(vec.len(), 4);
    assert_eq!(tail.len(), 2);
    // The new container's first element is the original element 4, found
    // at its re-based offset zero.
    assert_eq!(tail.get(0, tag_u8()).unwrap().unwrap(), &[4u8][..]);
    assert_eq!(get_test_data(&tail, 1).unwrap().unwrap(), test_data(5));
    // The receiver still reaches all four kept elements.
    assert_eq!(vec.get(0, tag_u8()).unwrap().unwrap(), &[0u8][..]);
    assert_eq!(get_test_data(&vec, 2).unwrap().unwrap(), test_data(2));
    assert_eq!(vec.get(3, tag_i32()).unwrap().unwrap(), &3i32.to_le_bytes()[..]);
}

#[test]
fn scenario_type_mismatch_then_correct_get() {
    let mut vec = AnyVec::new();
    vec.push(tag_str(), &encode_str_field("Test"));

    let err = vec.get(0, tag_i32()).unwrap_err();
    assert_eq!(err, TypeMismatch { expected: tag_i32(), actual: tag_str() });

    // A subsequent correctly-typed read still succeeds, undisturbed.
    let bytes = vec.get(0, tag_str()).unwrap().unwrap();
    assert_eq!(decode_str_field(bytes), "Test");
}

#[test]
fn truncate_beyond_length_is_noop() {
    let mut vec = AnyVec::new();
    vec.push(tag_u8(), &[1u8]);
    vec.push(tag_u16(), &2u16.to_le_bytes());
    vec.truncate(2);
    assert_eq!(vec.len(), 2);
    vec.truncate(100);
    assert_eq!(vec.len(), 2);
    assert_eq!(vec.get(0, tag_u8()).unwrap().unwrap(), &[1u8][..]);
    assert_eq!(vec.get(1, tag_u16()).unwrap().unwrap(), &2u16.to_le_bytes()[..]);
}

#[test]
fn checked_reads_out_of_bounds() {
    let mut vec = AnyVec::new();
    assert!(vec.get(0, tag_u8()).unwrap().is_none());
    assert!(vec.is(0, tag_u8()).is_none());
    assert!(vec.pop(tag_u8()).unwrap().is_none());
    vec.push(tag_u8(), &[9u8]);
    assert!(vec.get(1, tag_u8()).unwrap().is_none());
    assert!(vec.get_mut(1, tag_u8(), &[0u8]).unwrap().is_none());
}

#[test]
fn mismatch_errors_leave_container_unchanged() {
    let mut vec = AnyVec::new();
    vec.push(tag_u8(), &[9u8]);
    push_test_data(&mut vec, 4);

    let err = vec.remove(0, tag_u16()).unwrap_err();
    assert_eq!(err, TypeMismatch { expected: tag_u16(), actual: tag_u8() });
    let err = vec.pop(tag_u8()).unwrap_err();
    assert_eq!(err, TypeMismatch { expected: tag_u8(), actual: tag_test_data() });
    let err = vec.get_mut(0, tag_u16(), &[0u8, 0u8]).unwrap_err();
    assert_eq!(err, TypeMismatch { expected: tag_u16(), actual: tag_u8() });

    assert_eq!(vec.len(), 2);
    assert_eq!(vec.get(0, tag_u8()).unwrap().unwrap(), &[9u8][..]);
    assert_eq!(get_test_data(&vec, 1).unwrap().unwrap(), test_data(4));
}

#[test]
fn split_off_at_ends() {
    let mut vec = AnyVec::new();
    vec.push(tag_u8(), &[1u8]);
    vec.push(tag_u8(), &[2u8]);

    let empty_tail = vec.split_off(2);
    assert_eq!(vec.len(), 2);
    assert!(empty_tail.is_empty());

    let everything = vec.split_off(0);
    assert!(vec.is_empty());
    assert_eq!(everything.len(), 2);
    assert_eq!(everything.get(0, tag_u8()).unwrap().unwrap(), &[1u8][..]);
    assert_eq!(everything.get(1, tag_u8()).unwrap().unwrap(), &[2u8][..]);
}

#[test]
fn get_mut_writes_through() {
    let mut vec = AnyVec::new();
    vec.push(tag_u16(), &100u16.to_le_bytes());
    vec.push(tag_u16(), &200u16.to_le_bytes());

    vec.get_mut(0, tag_u16(), &900u16.to_le_bytes()).unwrap().unwrap();
    assert_eq!(vec.get(0, tag_u16()).unwrap().unwrap(), &900u16.to_le_bytes()[..]);
    // The neighbouring slot's bytes are untouched.
    assert_eq!(vec.get(1, tag_u16()).unwrap().unwrap(), &200u16.to_le_bytes()[..]);
}

#[test]
fn arena_accounting() {
    // The arena always holds exactly the sum of the stored byte sizes.
    let mut vec = AnyVec::new();
    assert_eq!(vec.arena_len(), 0);
    vec.push(tag_u8(), &[1u8]);
    vec.push(tag_u16(), &2u16.to_le_bytes());
    push_test_data(&mut vec, 3);
    assert_eq!(vec.arena_len(), 1 + 2 + TEST_DATA_SIZE);
    vec.remove(1, tag_u16()).unwrap();
    assert_eq!(vec.arena_len(), 1 + TEST_DATA_SIZE);
    vec.truncate(1);
    assert_eq!(vec.arena_len(), 1);
    vec.clear();
    assert_eq!(vec.arena_len(), 0);
}

#[test]
fn zero_sized_elements() {
    // A zero-byte representation (a unit-like type) still occupies a slot.
    let unit_tag = TypeTag { id: 99 };
    let mut vec = AnyVec::new();
    vec.push(unit_tag, &[]);
    vec.push(tag_u8(), &[5u8]);
    vec.push(unit_tag, &[]);
    assert_eq!(vec.len(), 3);
    assert_eq!(vec.get(0, unit_tag).unwrap().unwrap(), &[] as &[u8]);
    assert_eq!(vec.get(1, tag_u8()).unwrap().unwrap(), &[5u8][..]);
    let popped = vec.pop(unit_tag).unwrap().unwrap();
    assert!(popped.is_empty());
    assert_eq!(vec.len(), 2);
}
