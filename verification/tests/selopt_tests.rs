use std::collections::HashSet;

use selopt::combinatorics::number_of_combinations_with_replacement;
use selopt::config::zero_bytes_within_selector_length;
use selopt::generator::generate_suffixes;
use selopt::orchestrator::{suffix_channel_capacity, worker_count};
use selopt::searcher::SearchWorker;
use selopt::selector::Selector;
use selopt::signature::{FunctionSignature, SuffixWithSelector};
use selopt::ui::{GroupedSelector, SignatureWithSelector};

const ALPHABET: &[u8] = b"abcdefghijklmnopqrstuvwxyzABCDEFGHIJKLMNOPQRSTUVWXYZ0123456789$_";

#[test]
fn counts_small_lengths() {
    assert_eq!(number_of_combinations_with_replacement(64, 1), 64);
    assert_eq!(number_of_combinations_with_replacement(64, 2), 2080);
    assert_eq!(number_of_combinations_with_replacement(64, 3), 45760);
    assert_eq!(number_of_combinations_with_replacement(64, 4), 766480);
    assert_eq!(number_of_combinations_with_replacement(2, 2), 3);
}

#[test]
fn generator_emits_exactly_the_count_for_length_one() {
    let mut g = generate_suffixes(1);
    assert_eq!(g.total_count(), 64);
    let mut seen: HashSet<Vec<u8>> = HashSet::new();
    while let Some(s) = g.next_suffix() {
        assert_eq!(s.len(), 1);
        assert!(s.iter().all(|b| ALPHABET.contains(b)));
        assert!(seen.insert(s), "duplicate suffix emitted");
    }
    assert_eq!(seen.len(), 64);
    assert!(g.next_suffix().is_none());
}

#[test]
fn generator_emits_exactly_the_count_for_length_two() {
    let mut g = generate_suffixes(2);
    assert_eq!(g.total_count(), 2080);
    let mut seen: HashSet<Vec<u8>> = HashSet::new();
    let mut count: u64 = 0;
    while let Some(s) = g.next_suffix() {
        assert_eq!(s.len(), 2);
        assert!(s.iter().all(|b| ALPHABET.contains(b)));
        assert!(seen.insert(s), "duplicate suffix emitted");
        count += 1;
    }
    assert_eq!(count, 2080);
    assert_eq!(seen.len(), 2080);
}

#[test]
fn generator_walks_in_canonical_order() {
    let mut g = generate_suffixes(2);
    assert_eq!(g.next_suffix().unwrap(), b"aa".to_vec());
    assert_eq!(g.next_suffix().unwrap(), b"ab".to_vec());
    assert_eq!(g.next_suffix().unwrap(), b"ac".to_vec());
    let mut last = Vec::new();
    let mut g2 = generate_suffixes(2);
    while let Some(s) = g2.next_suffix() {
        last = s;
    }
    assert_eq!(last, b"__".to_vec());
}

#[test]
fn selector_matches_known_keccak_vector() {
    let sel = Selector::new(b"transfer(address,uint256)");
    assert_eq!(sel.to_hex(), b"0xa9059cbb".to_vec());
    assert_eq!(sel.zero_count(), 0);
}

#[test]
fn selector_is_deterministic() {
    let a = Selector::new(b"balanceOf(address)");
    let b = Selector::new(b"balanceOf(address)");
    assert_eq!(a.to_hex(), b.to_hex());
    assert_eq!(a.to_hex(), b"0x70a08231".to_vec());
}

#[test]
fn zero_count_spans_the_selector() {
    assert_eq!(Selector::from_bytes([0, 0, 0, 0]).zero_count(), 4);
    assert_eq!(Selector::from_bytes([1, 2, 3, 4]).zero_count(), 0);
    assert_eq!(Selector::from_bytes([0, 9, 0, 7]).zero_count(), 2);
    assert_eq!(Selector::from_bytes([255, 0, 255, 255]).zero_count(), 1);
}

#[test]
fn signature_selector_hashes_name_and_inputs() {
    let sig = FunctionSignature { name: b"transfer".to_vec(), inputs: b"(address,uint256)".to_vec() };
    assert_eq!(sig.selector().to_hex(), b"0xa9059cbb".to_vec());
}

#[test]
fn search_worker_hashes_the_spliced_candidate() {
    let sig = FunctionSignature { name: b"foo".to_vec(), inputs: b"()".to_vec() };
    let mut worker = SearchWorker::new(&sig, 2, 0);
    let m = worker.process(b"ab".to_vec()).expect("threshold 0 keeps everything");
    assert_eq!(m.suffix, b"ab".to_vec());
    let direct = Selector::new(b"foo_ab()");
    assert_eq!(m.selector.to_hex(), direct.to_hex());
}

#[test]
fn end_to_end_small_space_threshold_zero() {
    let sig = FunctionSignature { name: b"foo".to_vec(), inputs: b"()".to_vec() };
    let mut g = generate_suffixes(2);
    assert_eq!(g.total_count(), 2080);
    let mut worker = SearchWorker::new(&sig, 2, 0);
    let mut hashed: u64 = 0;
    let mut matches: Vec<SuffixWithSelector> = Vec::new();
    while let Some(s) = g.next_suffix() {
        hashed += 1;
        if let Some(m) = worker.process(s) {
            matches.push(m);
        }
    }
    assert_eq!(hashed, 2080);
    assert_eq!(matches.len(), 2080);
}

#[test]
fn end_to_end_small_space_high_threshold() {
    let sig = FunctionSignature { name: b"foo".to_vec(), inputs: b"()".to_vec() };
    let mut g = generate_suffixes(2);
    let mut worker = SearchWorker::new(&sig, 2, 3);
    let mut matches: Vec<SuffixWithSelector> = Vec::new();
    while let Some(s) = g.next_suffix() {
        if let Some(m) = worker.process(s) {
            matches.push(m);
        }
    }
    // A threshold of 3 zero bytes is a one-in-millions event; a 2080-element
    // space yields an empty or near-empty result set.
    assert!(matches.len() <= 2);
    for m in &matches {
        assert!(m.selector.zero_count() >= 3);
    }
}

#[test]
fn grouping_buckets_by_zero_count() {
    let sig = FunctionSignature { name: b"foo".to_vec(), inputs: b"()".to_vec() };
    let mut g = generate_suffixes(2);
    let mut worker = SearchWorker::new(&sig, 2, 0);
    let mut grouped = GroupedSelector::new(FunctionSignature {
        name: b"foo".to_vec(),
        inputs: b"()".to_vec(),
    });
    let mut total: usize = 0;
    while let Some(s) = g.next_suffix() {
        if let Some(m) = worker.process(s) {
            grouped.add(m);
            total += 1;
        }
    }
    assert_eq!(total, 2080);
    let mut bucketed: usize = 0;
    for (i, group) in grouped.selectors_by_zero_bytes.iter().enumerate() {
        assert_eq!(group.zero_count as usize, i);
        for m in &group.suffixes {
            assert_eq!(m.selector.zero_count() as usize, i);
        }
        bucketed += group.suffixes.len();
    }
    assert_eq!(bucketed, 2080);
}

#[test]
fn rendered_candidate_carries_the_match() {
    let sig = FunctionSignature { name: b"foo".to_vec(), inputs: b"()".to_vec() };
    let sel = Selector::new(b"foo_ab()");
    let m = SuffixWithSelector::new(b"ab".to_vec(), sel);
    let rendered = SignatureWithSelector::new(&sig, &m);
    assert_eq!(rendered.signature, b"foo_ab()".to_vec());
    assert_eq!(rendered.selector.to_hex(), sel.to_hex());
}

#[test]
fn zero_byte_threshold_validation() {
    assert_eq!(zero_bytes_within_selector_length("1"), Ok(1));
    assert_eq!(zero_bytes_within_selector_length("4"), Ok(4));
    assert_eq!(zero_bytes_within_selector_length("+3"), Ok(3));
    assert_eq!(
        zero_bytes_within_selector_length("0"),
        Err("Number of bytes to be zeroed out not within length of function selector 1-4"
            .to_string())
    );
    assert_eq!(
        zero_bytes_within_selector_length("5"),
        Err("Number of bytes to be zeroed out not within length of function selector 1-4"
            .to_string())
    );
    assert_eq!(zero_bytes_within_selector_length(""), Err("not a number".to_string()));
    assert_eq!(zero_bytes_within_selector_length("abc"), Err("not a number".to_string()));
    assert_eq!(zero_bytes_within_selector_length("2x"), Err("not a number".to_string()));
    assert_eq!(zero_bytes_within_selector_length("999"), Err("not a number".to_string()));
    assert_eq!(zero_bytes_within_selector_length("+"), Err("not a number".to_string()));
}

#[test]
fn worker_pool_sizing() {
    assert_eq!(worker_count(0), 1);
    assert_eq!(worker_count(1), 1);
    assert_eq!(worker_count(2), 1);
    assert_eq!(worker_count(8), 7);
    assert_eq!(suffix_channel_capacity(7), 35000);
    assert_eq!(suffix_channel_capacity(1), 5000);
}
