use txlsh::quartile::{find_quartiles, partition};

/// A sequence of numbers that looks random and is always the same.
fn numbers(seed: u64, len: usize, modulus: u32) -> Vec<u32> {
    let mut state = seed;
    let mut out = Vec::with_capacity(len);
    for _ in 0..len {
        state = state.wrapping_mul(6364136223846793005).wrapping_add(1442695040888963407);
        out.push(((state >> 33) as u32) % modulus);
    }
    out
}

fn by_sorting(buckets: &[u32], bucket_count: usize) -> (u32, u32, u32) {
    let quartile = bucket_count / 4;
    let mut sorted = buckets[..4 * quartile].to_vec();
    sorted.sort();
    (sorted[quartile - 1], sorted[2 * quartile - 1], sorted[3 * quartile - 1])
}

fn check(buckets: &[u32], bucket_count: usize) {
    let before = buckets.to_vec();
    let found = find_quartiles(buckets, bucket_count);
    assert_eq!(found, by_sorting(buckets, bucket_count));
    assert!(found.0 <= found.1 && found.1 <= found.2);
    assert_eq!(buckets, &before[..]);
}

#[test]
fn quartiles_of_small_histograms() {
    assert_eq!(find_quartiles(&[1, 2, 3, 4, 5, 6, 7, 8], 8), (2, 4, 6));
    assert_eq!(find_quartiles(&[8, 7, 6, 5, 4, 3, 2, 1], 8), (2, 4, 6));
    assert_eq!(find_quartiles(&[5, 5, 5, 5, 5, 5, 5, 5], 8), (5, 5, 5));
    assert_eq!(find_quartiles(&[0, 0, 0, 0, 0, 0, 0, 9], 8), (0, 0, 0));
    assert_eq!(find_quartiles(&[9, 9, 9, 0, 0, 0, 0, 0], 8), (0, 0, 9));
    assert_eq!(find_quartiles(&[3, 1, 4, 1, 5, 9, 2, 6, 5, 3, 5, 8], 12), (2, 4, 5));
}

#[test]
fn quartiles_count_whole_quarters_only() {
    // of 11 buckets only the first 8 are counted
    assert_eq!(find_quartiles(&[1, 2, 3, 4, 5, 6, 7, 8, 0, 0, 0], 11), (2, 4, 6));
    // and the buckets beyond the count never
    assert_eq!(find_quartiles(&[1, 2, 3, 4, 5, 6, 7, 8, 0, 0, 0], 8), (2, 4, 6));
}

#[test]
fn quartiles_of_sorted_histograms() {
    for bucket_count in [8usize, 9, 16, 100, 128, 256] {
        let up: Vec<u32> = (0..bucket_count as u32).collect();
        check(&up, bucket_count);
        let down: Vec<u32> = (0..bucket_count as u32).rev().collect();
        check(&down, bucket_count);
        let flat = vec![7u32; bucket_count];
        check(&flat, bucket_count);
        let steps: Vec<u32> = (0..bucket_count as u32).map(|i| i / 5).collect();
        check(&steps, bucket_count);
        let saw: Vec<u32> = (0..bucket_count as u32).map(|i| i % 7).collect();
        check(&saw, bucket_count);
        let hill: Vec<u32> =
            (0..bucket_count as u32).map(|i| i.min(bucket_count as u32 - i)).collect();
        check(&hill, bucket_count);
        let valley: Vec<u32> =
            (0..bucket_count as u32).map(|i| 1000 - i.min(bucket_count as u32 - i)).collect();
        check(&valley, bucket_count);
    }
}

#[test]
fn quartiles_of_many_histograms() {
    for seed in 0..300u64 {
        for modulus in [1u32, 2, 3, 10, 1000, u32::MAX] {
            let buckets = numbers(seed * 7 + modulus as u64, 256, modulus);
            check(&buckets, 256);
            check(&buckets, 128);
            check(&buckets[..128], 128);
        }
    }
}

#[test]
fn quartiles_of_histograms_of_any_size() {
    for bucket_count in 8..80usize {
        for seed in 0..20u64 {
            let buckets = numbers(seed + 1000 * bucket_count as u64, bucket_count + 3, 50);
            check(&buckets, bucket_count);
        }
    }
}

#[test]
fn quartiles_of_histograms_with_few_hits() {
    for hits in 0..=6usize {
        let mut buckets = vec![0u32; 256];
        for hit in 0..hits {
            buckets[(hit * 41 + 3) % 128] = 100 + hit as u32;
        }
        assert_eq!(find_quartiles(&buckets, 128).2, 0);
        assert_eq!(find_quartiles(&buckets, 256).2, 0);
        check(&buckets, 128);
        check(&buckets, 256);
    }
}

#[test]
fn quartiles_of_the_largest_counters() {
    let mut buckets = vec![u32::MAX; 128];
    check(&buckets, 128);
    buckets[5] = 0;
    buckets[77] = u32::MAX - 1;
    check(&buckets, 128);
    assert_eq!(find_quartiles(&buckets, 128), (u32::MAX, u32::MAX, u32::MAX));
}

fn check_partition(start: &[u32], low: usize, high: usize) {
    let mut buckets = start.to_vec();
    let pivot = partition(&mut buckets, low, high);
    assert!(low <= pivot && pivot <= high);
    assert_eq!(buckets[..low], start[..low]);
    assert_eq!(buckets[high + 1..], start[high + 1..]);
    let mut now = buckets[low..=high].to_vec();
    let mut then = start[low..=high].to_vec();
    now.sort();
    then.sort();
    assert_eq!(now, then);
    for at in low..pivot {
        assert!(buckets[at] <= buckets[pivot]);
    }
    for at in pivot + 1..=high {
        assert!(buckets[pivot] <= buckets[at]);
    }
    if high - low >= 2 {
        assert_eq!(buckets[pivot], start[low + (high - low) / 2]);
        for at in low..pivot {
            assert!(buckets[at] < buckets[pivot]);
        }
    } else {
        assert_eq!(pivot, low);
    }
}

#[test]
fn partition_of_small_ranges() {
    let mut one = vec![4, 2, 9];
    assert_eq!(partition(&mut one, 1, 1), 1);
    assert_eq!(one, vec![4, 2, 9]);

    let mut two = vec![4, 2, 9];
    assert_eq!(partition(&mut two, 0, 1), 0);
    assert_eq!(two, vec![2, 4, 9]);
    assert_eq!(partition(&mut two, 1, 2), 1);
    assert_eq!(two, vec![2, 4, 9]);

    let mut three = vec![3, 2, 1];
    assert_eq!(partition(&mut three, 0, 2), 1);
    assert_eq!(three, vec![1, 2, 3]);

    let mut five = vec![5, 1, 3, 2, 4];
    assert_eq!(partition(&mut five, 0, 4), 2);
    assert_eq!(five, vec![1, 2, 3, 5, 4]);

    let mut five = vec![9, 9, 1, 9, 9];
    assert_eq!(partition(&mut five, 0, 4), 0);
    assert_eq!(five[0], 1);
}

#[test]
fn partition_of_many_ranges() {
    for seed in 0..200u64 {
        for modulus in [1u32, 2, 5, 1000] {
            let start = numbers(seed * 13 + modulus as u64, 40, modulus);
            let low = (seed % 20) as usize;
            let high = low + ((seed / 3) % 20) as usize;
            check_partition(&start, low, high);
            check_partition(&start, 0, 39);
        }
    }
}
