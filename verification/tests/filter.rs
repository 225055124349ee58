use bloom_filter::{BloomFilter, DefaultBloomFilter, DEFAULT_BITS, DEFAULT_HASHES};

const BLOOM_FILTER_MAX: usize = 10000;

// Should be loose to prevent non-deterministic failures
const FALSE_POS_UPPER_BOUND: f64 = 0.01;

#[test]
fn bloom_filter_accepts_one() {
    let num: i32 = 1234;

    let mut bf: DefaultBloomFilter<i32> = BloomFilter::new();
    bf.insert(&num);

    assert!(
        bf.contains(&num),
        "bloom filter doesn't contain inserted item"
    )
}

#[test]
fn bloom_filter_rejects_one() {
    let num: i32 = 1234;

    let bf: DefaultBloomFilter<i32> = BloomFilter::new();

    assert!(
        !bf.contains(&num),
        "empty bloom filter claims to contain item"
    )
}

#[test]
fn bloom_filter_accepts_many() {
    let mut bf: DefaultBloomFilter<usize> = BloomFilter::new();

    (0..BLOOM_FILTER_MAX).for_each(|i| bf.insert(&i));

    assert!(
        (0..BLOOM_FILTER_MAX).all(|i| bf.contains(&i)),
        "bloom filter doesn't contain inserted items"
    )
}

#[test]
fn bloom_filter_rejects_many() {
    let bf: DefaultBloomFilter<usize> = BloomFilter::new();

    assert!(
        (0..BLOOM_FILTER_MAX).all(|i| !bf.contains(&i)),
        "empty bloom filter claims to contain items"
    )
}

#[test]
fn bloom_filter_false_positives() {
    let mut false_pos: usize = 0;

    let mut bf: DefaultBloomFilter<usize> = BloomFilter::new();
    for i in 0..BLOOM_FILTER_MAX {
        bf.insert(&i);
    }

    for i in BLOOM_FILTER_MAX..BLOOM_FILTER_MAX * 2 {
        false_pos += bf.contains(&i) as usize;
    }

    let rate: f64 = false_pos as f64 / BLOOM_FILTER_MAX as f64;
    assert!(
        rate < FALSE_POS_UPPER_BOUND,
        "false positive rate {} higher than set bound {}",
        rate,
        FALSE_POS_UPPER_BOUND
    )
}

#[test]
fn default_parameters() {
    assert_eq!(DEFAULT_BITS, 150000);
    assert_eq!(DEFAULT_HASHES, 5);
}

#[test]
fn independent_filters_share_no_state() {
    let num: i32 = 1234;
    let mut first: DefaultBloomFilter<i32> = BloomFilter::new();
    first.insert(&num);
    assert!(first.contains(&num));
    let second: DefaultBloomFilter<i32> = BloomFilter::new();
    assert!(!second.contains(&num));
}

#[test]
fn default_is_an_empty_filter() {
    let bf: DefaultBloomFilter<u64> = Default::default();
    for i in 0..1000u64 {
        assert!(!bf.contains(&i));
    }
    let all: Vec<u64> = (0..1000u64).collect();
    assert!(!bf.contains_hashes(&all));
}

#[test]
fn inserted_item_stays_after_other_insertions() {
    let mut bf: BloomFilter<String, 4096, 3> = BloomFilter::new();
    let kept: String = String::from("kept");
    bf.insert(&kept);
    assert!(bf.contains(&kept));
    for i in 0..500u32 {
        bf.insert(&format!("other-{}", i));
        assert!(bf.contains(&kept));
    }
}

#[test]
fn inserting_twice_changes_no_answer() {
    let mut once: BloomFilter<u32, 64, 2> = BloomFilter::new();
    let mut twice: BloomFilter<u32, 64, 2> = BloomFilter::new();
    once.insert_hashes(&[3, 70]);
    twice.insert_hashes(&[3, 70]);
    twice.insert_hashes(&[3, 70]);
    for d in 0..200u64 {
        assert_eq!(once.contains_hashes(&[d]), twice.contains_hashes(&[d]), "digest {}", d);
    }
    let mut bf: BloomFilter<u32, 64, 2> = BloomFilter::new();
    bf.insert(&7);
    bf.insert(&7);
    assert!(bf.contains(&7));
}

#[test]
fn digest_selects_bit_by_remainder() {
    let mut bf: BloomFilter<u8, 100, 1> = BloomFilter::new();
    bf.insert_hashes(&[205]);
    assert!(bf.contains_hashes(&[5]));
    assert!(bf.contains_hashes(&[105]));
    assert!(bf.contains_hashes(&[205]));
    assert!(bf.contains_hashes(&[18446744073709551505]));
    for d in 0..100u64 {
        assert_eq!(bf.contains_hashes(&[d]), d == 5, "digest {}", d);
    }
}

#[test]
fn contains_needs_every_bit() {
    let mut bf: BloomFilter<u8, 32, 3> = BloomFilter::new();
    bf.insert_hashes(&[1, 2, 3]);
    assert!(bf.contains_hashes(&[1, 2, 3]));
    assert!(bf.contains_hashes(&[3, 1]));
    assert!(bf.contains_hashes(&[33, 34, 35]));
    assert!(!bf.contains_hashes(&[1, 2, 4]));
    assert!(!bf.contains_hashes(&[4, 1, 2]));
    assert!(!bf.contains_hashes(&[0]));
    assert!(bf.contains_hashes(&[]));
}

#[test]
fn bits_never_clear() {
    let mut bf: BloomFilter<u8, 50, 2> = BloomFilter::new();
    let mut seen: Vec<u64> = Vec::new();
    for round in 0..40u64 {
        bf.insert_hashes(&[round * 7, round * 13 + 1]);
        seen.push(round * 7);
        seen.push(round * 13 + 1);
        assert!(bf.contains_hashes(&seen), "round {}", round);
    }
    for item in 0..100u8 {
        bf.insert(&item);
        assert!(bf.contains_hashes(&seen), "item {}", item);
    }
}

#[test]
fn empty_filter_rejects_every_digest() {
    let bf: BloomFilter<u8, 64, 4> = BloomFilter::new();
    for d in 0..256u64 {
        assert!(!bf.contains_hashes(&[d]), "digest {}", d);
    }
}

#[test]
fn no_hash_functions_accepts_everything() {
    let mut bf: BloomFilter<u32, 16, 0> = BloomFilter::new();
    assert!(bf.contains(&1));
    bf.insert(&1);
    assert!(bf.contains(&2));
    assert!(!bf.contains_hashes(&[0]));
    let mut none: BloomFilter<u32, 0, 0> = BloomFilter::new();
    none.insert(&9);
    assert!(none.contains(&9));
}

#[test]
fn single_bit_filter_saturates() {
    let mut bf: BloomFilter<u32, 1, 3> = BloomFilter::new();
    assert!(!bf.contains(&10));
    bf.insert(&10);
    assert!(bf.contains(&10));
    assert!(bf.contains(&11));
}

#[test]
fn clone_answers_as_the_original() {
    let mut bf: BloomFilter<u64, 2048, 4> = BloomFilter::new();
    for i in 0..100u64 {
        bf.insert(&i);
    }
    bf.insert_hashes(&[2047]);
    let mut copy = bf.clone();
    for i in 0..100u64 {
        assert!(copy.contains(&i));
    }
    assert!(copy.contains_hashes(&[2047]));
    for d in 0..2048u64 {
        assert_eq!(copy.contains_hashes(&[d]), bf.contains_hashes(&[d]), "digest {}", d);
    }
    copy.insert_hashes(&[0, 1, 2, 3, 4, 5, 6, 7]);
    assert!(copy.contains_hashes(&[0, 1, 2, 3, 4, 5, 6, 7]));
}
