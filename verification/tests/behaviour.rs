use lib::{bin_size, indices, AppendOnlyVec};

#[test]
fn indices_at_bin_boundaries() {
    assert_eq!(indices(0), (0, 0));
    assert_eq!(indices(7), (0, 7));
    assert_eq!(indices(8), (1, 0));
    assert_eq!(indices(23), (1, 15));
    assert_eq!(indices(24), (2, 0));
    assert_eq!(indices(55), (2, 31));
    assert_eq!(indices(56), (3, 0));
    // the last index that the largest bins still hold
    let big = usize::MAX / 2 - 8;
    let (bin, offset) = indices(big);
    assert_eq!(bin as usize, usize::BITS as usize - 5);
    assert_eq!(offset, bin_size(bin) - 1);
}

#[test]
fn bin_sizes_double() {
    assert_eq!(bin_size(0), 8);
    assert_eq!(bin_size(1), 16);
    assert_eq!(bin_size(3), 64);
    assert_eq!(bin_size(10), 8192);
    for b in 0..40u32 {
        assert_eq!(bin_size(b + 1), 2 * bin_size(b));
    }
}

#[test]
fn bins_are_filled_in_order() {
    // every index gets the next slot: a bin is filled before the next starts
    let mut expected_bin = 0u32;
    let mut expected_offset = 0usize;
    for i in 0..5000usize {
        assert_eq!(indices(i), (expected_bin, expected_offset));
        expected_offset += 1;
        if expected_offset == bin_size(expected_bin) {
            expected_bin += 1;
            expected_offset = 0;
        }
    }
}

#[test]
fn new_is_empty() {
    let v = AppendOnlyVec::<u8>::new();
    assert_eq!(v.len(), 0);
    assert!(v.iter().is_empty());
    assert!(v.into_vec().is_empty());
    let d: AppendOnlyVec<u8> = Default::default();
    assert_eq!(d.len(), 0);
}

#[test]
fn push_returns_index_and_reads_back() {
    let mut v = AppendOnlyVec::new();
    for n in 0..300u64 {
        let which = v.push(n * 3);
        assert_eq!(which, n as usize);
        assert_eq!(v[which], n * 3);
        assert_eq!(v.len(), which + 1);
    }
    // earlier elements are untouched by later pushes
    for n in 0..300u64 {
        assert_eq!(v[n as usize], n * 3);
    }
}

#[test]
fn push_mut_returns_new_length() {
    let mut v = AppendOnlyVec::new();
    assert_eq!(v.push_mut('a'), 1);
    assert_eq!(v.push_mut('b'), 2);
    assert_eq!(v.push(' '), 2);
    assert_eq!(v.push_mut('c'), 4);
    assert_eq!(v.into_vec(), vec!['a', 'b', ' ', 'c']);
}

#[test]
fn sequential_threads_example() {
    // ten workers pushing a hundred strings each, one worker after the other
    let mut v: AppendOnlyVec<String> = AppendOnlyVec::new();
    for thread_num in 0..10 {
        for n in 0..100 {
            let s = format!("thread {} says {}", thread_num, n);
            let which = v.push(s.clone());
            assert_eq!(&v[which], &s);
        }
    }
    assert_eq!(v.len(), 1000);
}

#[test]
fn compute_next_pushes_at_current_length() {
    let mut v = AppendOnlyVec::<u64>::new();
    for i in 0..20u64 {
        let r = v.compute_next(|idx| Some(((idx as u64) << 32) | 7));
        assert_eq!(r, Some(i as usize));
        assert_eq!(v[i as usize] >> 32, i);
    }
    assert_eq!(v.len(), 20);
}

#[test]
fn compute_next_none_leaves_vector() {
    let mut v = AppendOnlyVec::<u64>::new();
    v.push(1);
    v.push(2);
    let mut seen = None;
    let r = v.compute_next(|idx| {
        seen = Some(idx);
        None
    });
    assert_eq!(r, None);
    assert_eq!(seen, Some(2));
    assert_eq!(v.len(), 2);
    assert_eq!(v.into_vec(), vec![1, 2]);
}

struct CachedSequence<F, T>
where
    F: Fn(usize) -> T,
{
    compute_ith: F,
    cache: AppendOnlyVec<T>,
}

impl<F, T> CachedSequence<F, T>
where
    F: Fn(usize) -> T,
{
    fn new(compute_ith: F) -> Self {
        CachedSequence { compute_ith, cache: AppendOnlyVec::new() }
    }

    fn get(&mut self, index: usize) -> &T {
        while self.cache.len() <= index {
            let f = &self.compute_ith;
            self.cache.compute_next(|i| Some(f(i)));
        }
        &self.cache[index]
    }
}

#[test]
fn compute_next_cached_sequence() {
    let mut seq = CachedSequence::new(|i| i + 1);
    assert_eq!(1, *seq.get(0));
    assert_eq!(1, *seq.get(0));
    assert_eq!(2, *seq.get(1));
    assert_eq!(11, *seq.get(10));
}

#[test]
fn extend_appends_in_order() {
    let mut v = AppendOnlyVec::new();
    v.push(0);
    v.extend(vec![1, 2, 3]);
    v.extend(Vec::new());
    v.extend((4..100).collect());
    assert_eq!(v.len(), 100);
    assert_eq!(v.into_vec(), (0..100).collect::<Vec<i32>>());
}

#[test]
fn iter_is_a_snapshot() {
    let mut v = AppendOnlyVec::new();
    v.extend(vec![10, 20, 30]);
    let before: Vec<i32> = v.iter().into_iter().copied().collect();
    v.push(40);
    assert_eq!(before, vec![10, 20, 30]);
    let after: Vec<i32> = v.iter().into_iter().copied().collect();
    assert_eq!(after, vec![10, 20, 30, 40]);
    let reversed: Vec<i32> = v.iter().into_iter().rev().copied().collect();
    assert_eq!(reversed, vec![40, 30, 20, 10]);
}

#[test]
fn replace_changes_one_element() {
    let mut v = AppendOnlyVec::new();
    v.extend((0..40).collect());
    let prev = v.replace(17, 1000);
    assert_eq!(prev, 17);
    for i in 0..40 {
        assert_eq!(v[i], if i == 17 { 1000 } else { i });
    }
    assert_eq!(v.len(), 40);
}

#[test]
fn clone_is_independent() {
    let mut v = AppendOnlyVec::new();
    v.extend(vec![String::from("a"), String::from("b")]);
    let mut w = v.clone();
    w.push(String::from("c"));
    w.replace(0, String::from("z"));
    assert_eq!(v.into_vec(), vec!["a", "b"]);
    assert_eq!(w.into_vec(), vec!["z", "b", "c"]);
}

#[test]
fn from_and_into_vec_round_trip() {
    let items: Vec<u16> = (0..777).collect();
    let v = AppendOnlyVec::from(items.clone());
    assert_eq!(v.len(), 777);
    assert_eq!(v.into_vec(), items);
    let w = AppendOnlyVec::from_iter(vec![3u8, 1, 2]);
    assert_eq!(w.into_vec(), vec![3, 1, 2]);
}

#[test]
fn into_iter_from_both_ends() {
    let v = AppendOnlyVec::from((1..=5).collect::<Vec<u32>>());
    let mut it = v.into_iter();
    assert_eq!(it.len(), 5);
    assert_eq!(it.size_hint(), (5, Some(5)));
    assert_eq!(it.next(), Some(1));
    assert_eq!(it.next_back(), Some(5));
    assert_eq!(it.next(), Some(2));
    assert_eq!(it.len(), 2);
    assert_eq!(it.next_back(), Some(4));
    assert_eq!(it.next_back(), Some(3));
    assert_eq!(it.next(), None);
    assert_eq!(it.next_back(), None);
    assert_eq!(it.size_hint(), (0, Some(0)));
}

#[test]
fn each_pushed_value_is_counted() {
    let mut v = AppendOnlyVec::<u64>::new();
    for worker in 0..100u64 {
        let which1 = v.push(worker);
        let which2 = v.push(worker);
        assert_eq!(v[which1], worker);
        assert_eq!(v[which2], worker);
    }
    for worker in 0..100u64 {
        assert_eq!(2, v.iter().into_iter().copied().filter(|&x| x == worker).count());
    }
}

#[test]
fn into_iter_debug_lists_values() {
    let it = AppendOnlyVec::from(vec![1, 2]).into_iter();
    assert_eq!(format!("{:?}", it), "IntoIter(IntoIter([1, 2]))");
}
