use bloom_filter::BloomFilter;
use bloom_filter::FilterError;

#[test]
fn test_single_element() {
    let mut b = BloomFilter::new(20000, (0.01f64).to_bits(), true).unwrap();
    assert!(b.add("Test".as_bytes()).unwrap());
    assert!(b.contains("Test".as_bytes()));
}

#[test]
fn test_empty_bloom_zero_capacity_filter() {
    let r = BloomFilter::new(0, (0.01f64).to_bits(), true);
    assert_eq!(r.err(), Some(FilterError::InvalidArgument));
}

#[test]
fn test_empty_bloom_zero_error_rate_filter() {
    let r = BloomFilter::new(10, (0.000f64).to_bits(), true);
    assert_eq!(r.err(), Some(FilterError::InvalidArgument));
}

#[test]
fn test_empty_bloom_negative_error_rate_filter() {
    let r = BloomFilter::new(10, (-0.010f64).to_bits(), true);
    assert_eq!(r.err(), Some(FilterError::InvalidArgument));
}

#[test]
fn test_full_bloom_filter() {
    let mut b = BloomFilter::new(10, (0.01f64).to_bits(), true).unwrap();
    // Add 11 elements to the 10 capacity Bloomfilter
    let elements = vec![
        "April is the cruellest month, breeding",
        "Lilacs out of the dead land, mixing",
        "Memory and desire, stirring",
        "Dull roots with spring rain.",
        "Winter kept us warm, covering",
        "Earth in forgetful snow, feeding",
        "A little life with dried tubers.",
        "Summer surprised us, coming over the Starnbergersee",
        "With a shower of rain; we stopped in the colonnade,",
        "And went on in sunlight, into the Hofgarten,",
        "And drank coffee, and talked for an hour.",
    ];
    for element in &elements[..9] {
        assert!(b.add(element.as_bytes()).unwrap());
    }
    assert!(
        b.add(elements[10].as_bytes()).unwrap(),
        "You are adding to the bloom filter that is full"
    );
}

#[test]
fn test_multiple_elements() {
    let mut b = BloomFilter::new(20000, (0.01f64).to_bits(), true).unwrap();
    let elements = vec![
        "Bin gar keine Russin, stamm’ aus Litauen, echt deutsch.",
        "And when we were children, staying at the arch-duke’s,",
        "My cousin’s, he took me out on a sled,",
        "And I was frightened. He said, Marie,",
        "Marie, hold on tight. And down we went.",
        "In the mountains, there you feel free.",
        "I read, much of the night, and go south in the winter.",
    ];
    for element in &elements {
        b.add(element.as_bytes()).unwrap();
    }
    for element in &elements {
        assert!(b.contains(element.as_bytes()));
    }
    assert_eq!(
        b.contains("What are the roots that clutch, what branches grow".as_bytes()),
        false
    );
    assert_eq!(elements.len(), b.len())
}

#[test]
fn test_multiple_duplicate_elements() {
    let mut b = BloomFilter::new(20000, (0.01f64).to_bits(), true).unwrap();
    let elements = vec![
        "Out of this stony rubbish? Son of man,",
        "Out of this stony rubbish? Son of man,",
        "You cannot say, or guess, for you know only",
        "You cannot say, or guess, for you know only",
    ];
    assert_eq!(b.add(elements[0].as_bytes()).unwrap(), true);
    assert_eq!(b.len(), 1);
    assert_eq!(b.add(elements[1].as_bytes()).unwrap(), false);
    assert_eq!(b.len(), 1);
    assert_eq!(b.add(elements[2].as_bytes()).unwrap(), true);
    assert_eq!(b.len(), 2);
    assert_eq!(b.add(elements[3].as_bytes()).unwrap(), false);
    assert_eq!(b.len(), 2);
}

#[test]
fn test_multiple_duplicate_elements_with_dup_check_false() {
    let mut b = BloomFilter::new(20000, (0.01f64).to_bits(), false).unwrap();
    let elements = vec![
        "A heap of broken images, where the sun beats,",
        "A heap of broken images, where the sun beats,",
        "And the dead tree gives no shelter, the cricket no relief,",
        "And the dead tree gives no shelter, the cricket no relief,",
    ];
    assert_eq!(b.add(elements[0].as_bytes()).unwrap(), true);
    assert_eq!(b.len(), 1);
    assert_eq!(b.add(elements[1].as_bytes()).unwrap(), true);
    assert_eq!(b.len(), 2);
    assert_eq!(b.add(elements[2].as_bytes()).unwrap(), true);
    assert_eq!(b.len(), 3);
    assert_eq!(b.add(elements[3].as_bytes()).unwrap(), true);
    assert_eq!(b.len(), 4);
    for i in vec![
        "A heap of broken images, where the sun beats,",
        "And the dead tree gives no shelter, the cricket no relief,",
    ] {
        assert!(b.contains(i.as_bytes()))
    }
}

#[test]
fn test_capacity_gating() {
    let mut b = BloomFilter::new(3, (0.01f64).to_bits(), false).unwrap();
    assert_eq!(b.add(b"one"), Ok(true));
    assert_eq!(b.add(b"two"), Ok(true));
    assert_eq!(b.add(b"three"), Ok(true));
    assert_eq!(b.len(), 3);
    assert_eq!(b.add(b"four"), Err(FilterError::CapacityExceeded));
    assert_eq!(b.len(), 3);
    // a full filter still answers queries
    assert!(b.contains(b"one"));
}

#[test]
fn test_example_scenario() {
    let mut b = BloomFilter::new(20000, (0.01f64).to_bits(), true).unwrap();
    assert_eq!(b.add("Test".as_bytes()), Ok(true));
    assert_eq!(b.len(), 1);
    assert!(b.contains("Test".as_bytes()));
    assert!(!b.contains("Other".as_bytes()));
}

#[test]
fn test_membership_persists_across_later_inserts() {
    let mut b = BloomFilter::new(1000, (0.01f64).to_bits(), false).unwrap();
    assert!(b.add(b"first").unwrap());
    assert!(b.contains(b"first"));
    for word in ["second", "third", "fourth", "fifth"] {
        assert!(b.add(word.as_bytes()).unwrap());
        assert!(b.contains(b"first"));
    }
}

#[test]
fn test_parameter_formulas_exact() {
    // m = ceil(n * (-log2 p) / ln 2) for n = 20000, p = 0.01
    assert_eq!(bloom_filter::params::nbits(20000, (0.01f64).to_bits()), 191702);
    // k = round((m / n) * ln 2) for m = 191702, n = 20000
    assert_eq!(bloom_filter::params::iterations(191702, 20000), 7);
    assert_eq!(bloom_filter::params::iterations(0, 5), 0);
    // p = 1: every query is allowed to be a false positive, no bits needed
    assert_eq!(bloom_filter::params::nbits(10, (1.0f64).to_bits()), 0);
}

#[test]
fn test_accessors() {
    let b = BloomFilter::new(20000, (0.01f64).to_bits(), true).unwrap();
    assert_eq!(b.capacity(), 20000);
    assert_eq!(b.len(), 0);
    assert!(b.is_empty());
    assert_eq!(b.bitvec_len(), 191702);
    assert_eq!(f64::from_bits(b.error_rate()), 0.01);
}

#[test]
fn test_is_empty_after_insert() {
    let mut b = BloomFilter::new(10, (0.5f64).to_bits(), false).unwrap();
    assert!(b.is_empty());
    b.add(b"x").unwrap();
    assert!(!b.is_empty());
    assert_eq!(b.len(), 1);
}

#[test]
fn test_error_rate_one_edge() {
    // At rate 1.0 the sizing formulas give a zero-length bit array and no
    // probes: every membership answer is a (permitted) false positive.
    let mut b = BloomFilter::new(10, (1.0f64).to_bits(), false).unwrap();
    assert_eq!(b.bitvec_len(), 0);
    assert_eq!(b.add(b"anything"), Ok(true));
    assert!(b.contains(b"whatever"));
}

#[test]
fn test_empty_item() {
    let mut b = BloomFilter::new(100, (0.01f64).to_bits(), true).unwrap();
    assert_eq!(b.add(b""), Ok(true));
    assert!(b.contains(b""));
    assert_eq!(b.add(b""), Ok(false));
    assert_eq!(b.len(), 1);
}
