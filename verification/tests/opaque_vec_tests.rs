use opaque_vec::raw_vec::{capacity_overflow, min_non_zero_capacity, RawVecMemory};
use opaque_vec::{
    Global, Layout, TryProjectVecError, TryProjectVecErrorKind, TryReserveErrorKind, TypeErasedVec,
    TypeProjectedVec,
};
use std::any::TypeId;

#[derive(Clone, Copy, Debug, PartialEq)]
struct DummyAlloc;

fn assert_send_sync<T: Send + Sync>() {}

fn proj_from(values: &[i32]) -> TypeProjectedVec<i32, Global> {
    let mut vec = TypeProjectedVec::new();
    for value in values {
        vec.push(*value);
    }
    vec
}

#[test]
fn raw_vec_test_assert_send_sync1() {
    assert_send_sync::<RawVecMemory>();
}

#[test]
fn raw_vec_test_assert_send_sync2() {
    assert_send_sync::<TypeProjectedVec<i32, DummyAlloc>>();
}

#[test]
fn vec_test_assert_send_sync1() {
    assert_send_sync::<TypeProjectedVec<i32, Global>>();
}

#[test]
fn vec_test_assert_send_sync2() {
    assert_send_sync::<TypeProjectedVec<i32, DummyAlloc>>();
}

#[test]
fn test_push_then_pop_restores() {
    let mut vec = proj_from(&[1, 2, 3]);
    vec.push(42);
    assert_eq!(vec.as_slice(), &[1, 2, 3, 42]);
    assert_eq!(vec.pop(), Some(42));
    assert_eq!(vec.as_slice(), &[1, 2, 3]);
}

#[test]
fn test_pop_empty() {
    let mut vec: TypeProjectedVec<i32> = TypeProjectedVec::new();
    assert_eq!(vec.pop(), None);
    assert!(vec.is_empty());
}

#[test]
fn test_swap_remove_examples() {
    let proj_vec = proj_from(&[1, 2, 3, i32::MAX]);
    {
        let mut cloned = proj_vec.clone();
        assert_eq!(cloned.swap_remove(3), i32::MAX);
        assert_eq!(cloned.as_slice(), &[1, 2, 3]);
    }
    {
        let mut cloned = proj_vec.clone();
        assert_eq!(cloned.swap_remove(2), 3);
        assert_eq!(cloned.as_slice(), &[1, 2, i32::MAX]);
    }
    {
        let mut cloned = proj_vec.clone();
        assert_eq!(cloned.swap_remove(1), 2);
        assert_eq!(cloned.as_slice(), &[1, i32::MAX, 3]);
    }
    {
        let mut cloned = proj_vec.clone();
        assert_eq!(cloned.swap_remove(0), 1);
        assert_eq!(cloned.as_slice(), &[i32::MAX, 2, 3]);
    }
}

#[test]
fn test_shift_insert_then_shift_remove() {
    let mut vec = proj_from(&[1, 2, 3]);
    vec.shift_insert(1, 9);
    assert_eq!(vec.as_slice(), &[1, 9, 2, 3]);
    assert_eq!(vec.shift_remove(1), 9);
    assert_eq!(vec.as_slice(), &[1, 2, 3]);
    vec.shift_insert(3, 4);
    assert_eq!(vec.as_slice(), &[1, 2, 3, 4]);
}

#[test]
fn test_replace_insert() {
    let mut vec = proj_from(&[1, 2, 3]);
    vec.replace_insert(1, 20);
    assert_eq!(vec.as_slice(), &[1, 20, 3]);
    vec.replace_insert(3, 4);
    assert_eq!(vec.as_slice(), &[1, 20, 3, 4]);
}

#[test]
fn test_push_within_capacity() {
    let mut vec: TypeProjectedVec<i32> = TypeProjectedVec::with_capacity(4);
    assert_eq!(vec.capacity(), 4);
    for i in 0..4 {
        assert!(vec.push_within_capacity(i + 1).is_ok());
        assert_eq!(vec.capacity(), 4);
    }
    assert_eq!(vec.as_slice(), &[1, 2, 3, 4]);
    assert_eq!(vec.push_within_capacity(i32::MAX), Err(i32::MAX));
    assert_eq!(vec.len(), 4);
}

#[test]
fn test_amortized_growth_doubles() {
    let mut vec: TypeProjectedVec<i32> = TypeProjectedVec::new();
    assert_eq!(vec.capacity(), 0);
    vec.push(1);
    assert_eq!(vec.capacity(), 4);
    for i in 0..4 {
        vec.push(i);
    }
    assert_eq!(vec.capacity(), 8);
}

#[test]
fn test_min_non_zero_capacity() {
    assert_eq!(min_non_zero_capacity(1), 8);
    assert_eq!(min_non_zero_capacity(4), 4);
    assert_eq!(min_non_zero_capacity(1024), 4);
    assert_eq!(min_non_zero_capacity(1025), 1);
    let mut bytes: TypeProjectedVec<u8> = TypeProjectedVec::new();
    bytes.push(1);
    assert_eq!(bytes.capacity(), 8);
}

#[test]
fn test_capacity_overflow_kind() {
    assert_eq!(capacity_overflow().kind(), TryReserveErrorKind::CapacityOverflow);
}

#[test]
fn test_try_with_capacity_overflow() {
    let result: Result<TypeProjectedVec<u64>, _> = TypeProjectedVec::try_with_capacity(usize::MAX);
    match result {
        Err(e) => assert_eq!(e.kind(), TryReserveErrorKind::CapacityOverflow),
        Ok(_) => panic!("expected a capacity overflow"),
    }
}

#[test]
fn test_try_reserve_overflow_keeps_vector() {
    let mut vec = proj_from(&[1, 2]);
    let capacity = vec.capacity();
    let result = vec.try_reserve(usize::MAX);
    assert_eq!(result.map_err(|e| e.kind()), Err(TryReserveErrorKind::CapacityOverflow));
    assert_eq!(vec.capacity(), capacity);
    assert_eq!(vec.as_slice(), &[1, 2]);
    let result = vec.try_reserve_exact(usize::MAX - 1);
    assert_eq!(result.map_err(|e| e.kind()), Err(TryReserveErrorKind::CapacityOverflow));
}

#[test]
fn test_reserve_gives_room() {
    let mut vec = proj_from(&[1, 2, 3]);
    vec.reserve(10);
    assert!(vec.capacity() >= 13);
    vec.reserve_exact(20);
    assert!(vec.capacity() >= 23);
    assert!(vec.try_reserve(5).is_ok());
    assert_eq!(vec.as_slice(), &[1, 2, 3]);
}

#[test]
fn test_reserve_exact_is_exact() {
    let mut vec: TypeProjectedVec<i32> = TypeProjectedVec::new();
    vec.reserve_exact(3);
    assert_eq!(vec.capacity(), 3);
}

#[test]
fn test_shrink_to_fit_and_shrink_to() {
    let mut vec: TypeProjectedVec<i32> = TypeProjectedVec::with_capacity(10);
    vec.push(1);
    vec.push(2);
    vec.shrink_to(5);
    assert_eq!(vec.capacity(), 5);
    vec.shrink_to(1);
    assert_eq!(vec.capacity(), 2);
    vec.reserve_exact(10);
    vec.shrink_to_fit();
    assert_eq!(vec.capacity(), 2);
    assert_eq!(vec.as_slice(), &[1, 2]);
}

#[test]
fn test_zero_sized_capacity() {
    let mut vec: TypeProjectedVec<()> = TypeProjectedVec::new();
    assert_eq!(vec.capacity(), 0);
    vec.push(());
    vec.push(());
    assert_eq!(vec.len(), 2);
    assert_eq!(vec.capacity(), usize::MAX);
}

#[test]
fn test_truncate_and_clear() {
    let mut vec = proj_from(&[1, 2, 3, 4]);
    vec.truncate(10);
    assert_eq!(vec.as_slice(), &[1, 2, 3, 4]);
    vec.truncate(2);
    assert_eq!(vec.as_slice(), &[1, 2]);
    let capacity = vec.capacity();
    vec.clear();
    assert!(vec.is_empty());
    assert_eq!(vec.capacity(), capacity);
}

#[test]
fn test_get_and_get_mut() {
    let mut vec = proj_from(&[5, 6]);
    assert_eq!(vec.get(1), Some(&6));
    assert_eq!(vec.get(2), None);
    if let Some(x) = vec.get_mut(0) {
        *x = 50;
    }
    assert!(vec.get_mut(2).is_none());
    assert_eq!(vec.as_slice(), &[50, 6]);
    assert_eq!(*vec.get_unchecked(1), 6);
}

#[test]
fn test_contains() {
    let vec = proj_from(&[1, 2, 3]);
    assert!(vec.contains(&2));
    assert!(!vec.contains(&4));
}

#[test]
fn test_split_off_then_append() {
    let mut vec = proj_from(&[1, 2, 3, 4, 5]);
    let capacity = vec.capacity();
    let mut tail = vec.split_off(2);
    assert_eq!(vec.as_slice(), &[1, 2]);
    assert_eq!(tail.as_slice(), &[3, 4, 5]);
    assert_eq!(tail.capacity(), 3);
    assert_eq!(vec.capacity(), capacity);
    vec.append(&mut tail);
    assert_eq!(vec.as_slice(), &[1, 2, 3, 4, 5]);
    assert!(tail.is_empty());
}

#[test]
fn test_resize_and_resize_with() {
    let mut vec = proj_from(&[1, 2]);
    vec.resize(4, 7);
    assert_eq!(vec.as_slice(), &[1, 2, 7, 7]);
    vec.resize(1, 0);
    assert_eq!(vec.as_slice(), &[1]);
    vec.resize_with(3, || 9);
    assert_eq!(vec.as_slice(), &[1, 9, 9]);
}

#[test]
fn test_extend_from_slice() {
    let mut vec = proj_from(&[1]);
    vec.extend_from_slice(&[2, 3]);
    assert_eq!(vec.as_slice(), &[1, 2, 3]);
}

#[test]
fn test_retain_keeps_flagged_in_order() {
    let mut vec = proj_from(&[1, 2, 3, 4, 5, 6]);
    vec.retain(|x| *x % 2 == 0);
    assert_eq!(vec.as_slice(), &[2, 4, 6]);
    vec.retain(|_| true);
    assert_eq!(vec.as_slice(), &[2, 4, 6]);
    vec.retain(|_| false);
    assert!(vec.is_empty());
}

#[test]
fn test_retain_mut() {
    let mut vec = proj_from(&[1, 2, 3, 4]);
    vec.retain_mut(|x| {
        *x *= 10;
        *x > 15
    });
    assert_eq!(vec.as_slice(), &[20, 30, 40]);
}

#[test]
fn test_dedup_no_equal_neighbours() {
    let mut vec = proj_from(&[1, 1, 2, 3, 3, 3, 1, 1]);
    vec.dedup();
    assert_eq!(vec.as_slice(), &[1, 2, 3, 1]);
}

#[test]
fn test_dedup_by_key_and_dedup_by() {
    let mut vec = proj_from(&[10, 11, 20, 21, 22, 30]);
    vec.dedup_by_key(|x| *x / 10);
    assert_eq!(vec.as_slice(), &[10, 20, 30]);
    let mut vec = proj_from(&[1, 2, 4, 5, 7]);
    vec.dedup_by(|a, b| *a == *b + 1);
    assert_eq!(vec.as_slice(), &[1, 4, 7]);
}

#[test]
fn test_reverse() {
    let mut vec = proj_from(&[1, 2, 3]);
    vec.reverse();
    assert_eq!(vec.as_slice(), &[3, 2, 1]);
}

#[test]
fn test_pop_if() {
    let mut vec = proj_from(&[1, 2, 3]);
    assert_eq!(vec.pop_if(|x| *x == 2), None);
    assert_eq!(vec.pop_if(|x| *x == 3), Some(3));
    assert_eq!(vec.as_slice(), &[1, 2]);
}

#[test]
fn test_drain_middle() {
    let mut vec = proj_from(&[1, 2, 3, 4, 5]);
    let mut drained = Vec::new();
    {
        let mut drain = vec.drain(1..3);
        while let Some(x) = drain.next() {
            drained.push(x);
        }
    }
    assert_eq!(drained, vec![2, 3]);
    assert_eq!(vec.as_slice(), &[1, 4, 5]);
}

#[test]
fn test_drain_back_and_keep_rest() {
    let mut vec = proj_from(&[1, 2, 3, 4, 5]);
    {
        let mut drain = vec.drain(1..4);
        assert_eq!(drain.size_hint(), (3, Some(3)));
        assert_eq!(drain.next_back(), Some(4));
        assert_eq!(drain.next(), Some(2));
        drain.keep_rest();
    }
    assert_eq!(vec.as_slice(), &[1, 3, 5]);
}

#[test]
fn test_splice() {
    let mut vec = proj_from(&[1, 2, 3, 4]);
    let mut removed = Vec::new();
    {
        let mut splice = vec.splice(1..3, vec![7, 8, 9]);
        while let Some(x) = splice.next() {
            removed.push(x);
        }
    }
    assert_eq!(removed, vec![2, 3]);
    assert_eq!(vec.as_slice(), &[1, 7, 8, 9, 4]);
}

#[test]
fn test_extract_if() {
    let mut vec = proj_from(&[1, 2, 3, 4, 5, 6]);
    let mut extracted = Vec::new();
    {
        let mut extract = vec.extract_if(0..6, |x: &mut i32| *x % 2 == 0);
        while let Some(x) = extract.next() {
            extracted.push(x);
        }
    }
    assert_eq!(extracted, vec![2, 4, 6]);
    assert_eq!(vec.as_slice(), &[1, 3, 5]);
}

#[test]
fn test_into_iter_in_order() {
    let vec = proj_from(&[1, 2, 3]);
    let mut iter = vec.into_iter();
    assert_eq!(iter.size_hint(), (3, Some(3)));
    assert_eq!(iter.next(), Some(1));
    assert_eq!(iter.next_back(), Some(3));
    assert_eq!(iter.as_slice(), &[2]);
    assert_eq!(iter.next(), Some(2));
    assert_eq!(iter.next(), None);
}

#[test]
fn test_from_vec_keeps_capacity() {
    let mut source = Vec::with_capacity(10);
    source.push(1u32);
    source.push(2u32);
    let vec = TypeProjectedVec::from_vec(source);
    assert_eq!(vec.as_slice(), &[1, 2]);
    assert!(vec.capacity() >= 10);
}

#[test]
fn test_clone_keeps_capacity() {
    let mut vec: TypeProjectedVec<i32> = TypeProjectedVec::with_capacity(6);
    vec.push(1);
    let cloned = vec.clone();
    assert_eq!(cloned.as_slice(), &[1]);
    assert_eq!(cloned.capacity(), 6);
}

#[test]
fn test_layout_new_and_repeat() {
    let layout = Layout::new::<u32>();
    assert_eq!(layout.size(), 4);
    assert_eq!(layout.align(), std::mem::align_of::<u32>());
    let array = layout.repeat(3).unwrap();
    assert_eq!(array.size(), 12);
    assert_eq!(array.align(), layout.align());
    assert!(layout.repeat(usize::MAX).is_none());
    let vec: TypeProjectedVec<u64> = TypeProjectedVec::new();
    assert_eq!(vec.element_layout().size(), 8);
}

#[test]
fn test_type_ids_of_projected_vec() {
    let vec: TypeProjectedVec<u16, Global> = TypeProjectedVec::new();
    assert_eq!(vec.element_type_id(), TypeId::of::<u16>());
    assert_eq!(vec.allocator_type_id(), TypeId::of::<Global>());
}

#[test]
fn test_try_project_vec_error_accessors() {
    let error = TryProjectVecError::new(TryProjectVecErrorKind::Element, TypeId::of::<u8>(), TypeId::of::<u16>());
    assert_eq!(error.kind(), TryProjectVecErrorKind::Element);
    assert_eq!(error.expected(), TypeId::of::<u8>());
    assert_eq!(error.result(), TypeId::of::<u16>());
}

#[test]
fn test_erased_type_information() {
    let vec = TypeErasedVec::new::<u32>();
    assert_eq!(vec.element_type_id(), TypeId::of::<u32>());
    assert_eq!(vec.allocator_type_id(), TypeId::of::<Global>());
    assert!(vec.has_element_type::<u32>());
    assert!(!vec.has_element_type::<i32>());
    assert!(vec.has_allocator_type::<Global>());
    assert!(!vec.has_allocator_type::<DummyAlloc>());
    assert!(vec.has_element_type_id(&TypeId::of::<u32>()));
    assert_eq!(vec.element_layout().size(), 4);
    assert!(vec.is_empty());
    assert_eq!(vec.capacity(), 0);
}

#[test]
fn test_erased_check_projection_element_first() {
    let vec = TypeErasedVec::new_in::<u32, DummyAlloc>(DummyAlloc);
    assert!(vec.check_projection(&TypeId::of::<u32>(), &TypeId::of::<DummyAlloc>()).is_ok());
    assert!(vec.try_check_projection::<u32, DummyAlloc>().is_ok());

    let error = vec.try_check_projection::<i64, Global>().unwrap_err();
    assert_eq!(error.kind(), TryProjectVecErrorKind::Element);
    assert_eq!(error.expected(), TypeId::of::<u32>());
    assert_eq!(error.result(), TypeId::of::<i64>());

    let error = vec.try_check_projection::<u32, Global>().unwrap_err();
    assert_eq!(error.kind(), TryProjectVecErrorKind::Allocator);
    assert_eq!(error.expected(), TypeId::of::<DummyAlloc>());
    assert_eq!(error.result(), TypeId::of::<Global>());
}

#[test]
fn test_erased_push_pop_bytes() {
    let mut vec = TypeErasedVec::new::<u32>();
    let one = 1u32.to_ne_bytes();
    let two = 2u32.to_ne_bytes();
    vec.push(&one);
    vec.push(&two);
    assert_eq!(vec.len(), 2);
    assert_eq!(vec.capacity(), 4);
    assert_eq!(vec.get(1), Some(two.to_vec()));
    assert_eq!(vec.get(2), None);
    assert!(vec.contains(&one));
    assert!(!vec.contains(&3u32.to_ne_bytes()));
    assert_eq!(vec.pop(), Some(two.to_vec()));
    assert_eq!(vec.pop(), Some(one.to_vec()));
    assert_eq!(vec.pop(), None);
}

#[test]
fn test_erased_insert_remove_bytes() {
    let mut vec = TypeErasedVec::new::<u16>();
    vec.push(&[1, 0]);
    vec.push(&[2, 0]);
    vec.push(&[3, 0]);
    vec.shift_insert(1, &[9, 0]);
    assert_eq!(vec.as_byte_slice(), &[1, 0, 9, 0, 2, 0, 3, 0]);
    assert_eq!(vec.shift_remove(1), vec![9, 0]);
    vec.replace_insert(0, &[7, 0]);
    assert_eq!(vec.as_byte_slice(), &[7, 0, 2, 0, 3, 0]);
    assert_eq!(vec.swap_remove(0), vec![7, 0]);
    assert_eq!(vec.as_byte_slice(), &[3, 0, 2, 0]);
    vec.reverse();
    assert_eq!(vec.as_byte_slice(), &[2, 0, 3, 0]);
}

#[test]
fn test_erased_split_off_append_resize() {
    let mut vec = TypeErasedVec::new::<u8>();
    vec.extend_from_slice(&[vec![1], vec![2], vec![3], vec![4]]);
    let mut tail = vec.split_off(1);
    assert_eq!(vec.as_byte_slice(), &[1]);
    assert_eq!(tail.as_byte_slice(), &[2, 3, 4]);
    assert_eq!(tail.capacity(), 3);
    vec.append(&mut tail);
    assert_eq!(vec.as_byte_slice(), &[1, 2, 3, 4]);
    assert!(tail.is_empty());
    vec.resize(6, &[5]);
    assert_eq!(vec.as_byte_slice(), &[1, 2, 3, 4, 5, 5]);
    vec.truncate(2);
    assert_eq!(vec.as_byte_slice(), &[1, 2]);
    let cloned = vec.clone();
    assert_eq!(cloned.as_byte_slice(), &[1, 2]);
    assert_eq!(cloned.capacity(), vec.capacity());
    vec.clear();
    assert!(vec.is_empty());
}

#[test]
fn test_erased_capacity_operations() {
    let mut vec = TypeErasedVec::with_capacity::<u64>(3);
    assert_eq!(vec.capacity(), 3);
    assert!(vec.push_within_capacity(vec![0; 8]).is_ok());
    vec.reserve(10);
    assert!(vec.capacity() >= 11);
    vec.shrink_to_fit();
    assert_eq!(vec.capacity(), 1);
    vec.reserve_exact(4);
    assert_eq!(vec.capacity(), 5);
    vec.shrink_to(2);
    assert_eq!(vec.capacity(), 2);
    assert!(vec.try_reserve_exact(1).is_ok());
    let err = vec.try_reserve(usize::MAX).unwrap_err();
    assert_eq!(err.kind(), TryReserveErrorKind::CapacityOverflow);
    let full = TypeErasedVec::try_with_capacity::<u64>(usize::MAX);
    assert!(full.is_err());
}

#[test]
fn test_erased_push_within_capacity_full() {
    let mut vec = TypeErasedVec::new::<u8>();
    assert_eq!(vec.push_within_capacity(vec![7]), Err(vec![7]));
    vec.push(&[1]);
    assert_eq!(vec.capacity(), 8);
}

#[test]
fn test_erased_retain_and_dedup() {
    let mut vec = TypeErasedVec::new::<u8>();
    vec.extend_from_slice(&[vec![1], vec![1], vec![2], vec![3], vec![3], vec![1]]);
    vec.dedup();
    assert_eq!(vec.as_byte_slice(), &[1, 2, 3, 1]);
    vec.retain(|bytes| bytes[0] != 1);
    assert_eq!(vec.as_byte_slice(), &[2, 3]);
    assert_eq!(vec.capacity(), 8);
}

#[test]
fn test_replace_insert_on_empty_then_replace() {
    let mut vec: TypeProjectedVec<i32> = TypeProjectedVec::new();
    assert!(vec.is_empty());
    vec.replace_insert(0, 1);
    assert_eq!(vec.len(), 1);
    assert_eq!(vec.as_slice(), &[1]);
    vec.replace_insert(0, 2);
    assert_eq!(vec.len(), 1);
    assert_eq!(vec.as_slice(), &[2]);
}

#[test]
fn test_dedup_by_case_insensitive() {
    let mut vec: TypeProjectedVec<&str> = TypeProjectedVec::new();
    for s in ["foo", "bar", "Bar", "baz", "bar", "quux", "Quux", "QuuX"] {
        vec.push(s);
    }
    vec.dedup_by(|a, b| a.eq_ignore_ascii_case(b));
    assert_eq!(vec.as_slice(), &["foo", "bar", "baz", "bar", "quux"]);
}

#[test]
fn test_dedup_by_key_sorted() {
    let mut vec = proj_from(&[10, 20, 20, 21, 30, 30, 30, 40]);
    vec.dedup_by_key(|i| *i / 10);
    assert_eq!(vec.as_slice(), &[10, 20, 30, 40]);
}

#[test]
fn test_default_is_empty() {
    let vec: TypeProjectedVec<i32, DummyAllocDefault> = Default::default();
    assert!(vec.is_empty());
    assert_eq!(vec.capacity(), 0);
}

#[derive(Clone, Copy, Debug, Default, PartialEq)]
struct DummyAllocDefault;

#[test]
fn test_type_ids_kept_by_operations() {
    let mut vec: TypeProjectedVec<u16, DummyAlloc> = TypeProjectedVec::new_in(DummyAlloc);
    vec.push(1);
    vec.push(2);
    let tail = vec.split_off(1);
    let cloned = vec.clone();
    for v in [&vec, &tail, &cloned] {
        assert_eq!(v.element_type_id(), TypeId::of::<u16>());
        assert_eq!(v.allocator_type_id(), TypeId::of::<DummyAlloc>());
    }
}

#[test]
fn test_zero_sized_erased_capacity() {
    let mut vec = TypeErasedVec::new::<()>();
    assert_eq!(vec.capacity(), 0);
    vec.push(&[]);
    vec.push(&[]);
    assert_eq!(vec.len(), 2);
    assert_eq!(vec.capacity(), usize::MAX);
    vec.clear();
    vec.shrink_to_fit();
    assert_eq!(vec.capacity(), 0);
    let with: TypeProjectedVec<()> = TypeProjectedVec::with_capacity(0);
    assert_eq!(with.capacity(), 0);
    let with: TypeProjectedVec<()> = TypeProjectedVec::with_capacity(3);
    assert_eq!(with.capacity(), usize::MAX);
}

#[test]
fn test_from_vec_zero_sized() {
    let vec = TypeProjectedVec::from_vec(vec![(), ()]);
    assert_eq!(vec.len(), 2);
    assert_eq!(vec.capacity(), usize::MAX);
}

#[test]
fn test_extract_if_evens_in_order() {
    let mut vec = proj_from(&[1, 2, 3, 4, 5, 6, 7, 8, 9, 10]);
    let mut out = Vec::new();
    {
        let mut it = vec.extract_if(0..10, |x: &mut i32| *x % 2 == 0);
        while let Some(x) = it.next() {
            out.push(x);
        }
    }
    assert_eq!(out, vec![2, 4, 6, 8, 10]);
    assert_eq!(vec.as_slice(), &[1, 3, 5, 7, 9]);
}

#[test]
fn test_extract_if_tail_range() {
    let mut items = proj_from(&[0, 0, 0, 0, 0, 0, 0, 1, 2, 1, 2, 1, 2]);
    let mut ones = Vec::new();
    {
        let mut it = items.extract_if(7..13, |x: &mut i32| *x == 1);
        while let Some(x) = it.next() {
            ones.push(x);
        }
    }
    assert_eq!(items.as_slice(), &[0, 0, 0, 0, 0, 0, 0, 2, 2, 2]);
    assert_eq!(ones.len(), 3);
}

#[test]
fn test_drain_dropped_without_yielding() {
    let mut vec = proj_from(&[1, i32::MAX, i32::MAX, i32::MAX, 2, 3]);
    let capacity = vec.capacity();
    {
        let _drain = vec.drain(1..4);
    }
    assert_eq!(vec.as_slice(), &[1, 2, 3]);
    assert_eq!(vec.capacity(), capacity);
}

#[test]
fn test_splice_empty_range_inserts() {
    let mut vec = proj_from(&[1, 5]);
    {
        let _splice = vec.splice(1..1, vec![2, 3, 4]);
    }
    assert_eq!(vec.as_slice(), &[1, 2, 3, 4, 5]);
}

#[test]
fn test_contains_empty() {
    let vec: TypeProjectedVec<i32> = TypeProjectedVec::new();
    assert!(!vec.contains(&0));
}
