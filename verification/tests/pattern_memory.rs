use sona::pattern::{distance_sq_exec, PatternMemory};
use sona::SonaError;

fn ids(memory: &PatternMemory) -> Vec<u64> {
    memory.patterns.iter().map(|p| p.id).collect()
}

#[test]
fn distance_is_the_sum_of_squares() {
    assert_eq!(distance_sq_exec(&vec![3, -4], &vec![0, 0]), 25);
    assert_eq!(distance_sq_exec(&vec![1_000_000_000], &vec![-1_000_000_000]), 4_000_000_000_000_000_000);
    assert_eq!(distance_sq_exec(&vec![], &vec![]), 0);
}

#[test]
fn same_embedding_many_times_is_one_pattern() {
    let mut memory = PatternMemory::new(3, 8, 500_000);
    let x = vec![100_000, -200_000, 300_000];
    for _ in 0..7 {
        assert_eq!(memory.insert(&x, 800_000), Ok(0));
    }
    assert_eq!(memory.len(), 1);
    assert_eq!(memory.patterns[0].member_count, 7);
    assert_eq!(memory.patterns[0].centroid, x);
    assert_eq!(memory.patterns[0].aggregate_quality, 800_000);
    assert_eq!(memory.inserted, 7);
    assert_eq!(memory.next_id, 1);
}

#[test]
fn distant_embeddings_are_two_patterns() {
    let mut memory = PatternMemory::new(2, 8, 500_000);
    assert_eq!(memory.insert(&vec![0, 0], 500_000), Ok(0));
    // distance 0.500001 > radius 0.5
    assert_eq!(memory.insert(&vec![500_001, 0], 600_000), Ok(1));
    assert_eq!(memory.len(), 2);
    assert_eq!(ids(&memory), vec![0, 1]);
    assert_eq!(memory.patterns[1].centroid, vec![500_001, 0]);
}

#[test]
fn embedding_on_the_radius_joins() {
    let mut memory = PatternMemory::new(2, 8, 500_000);
    memory.insert(&vec![0, 0], 500_000).unwrap();
    assert_eq!(memory.insert(&vec![300_000, 400_000], 1_000_000), Ok(0));
    assert_eq!(memory.len(), 1);
    assert_eq!(memory.patterns[0].member_count, 2);
    assert_eq!(memory.patterns[0].centroid, vec![150_000, 200_000]);
    assert_eq!(memory.patterns[0].aggregate_quality, 750_000);
}

#[test]
fn centroid_is_a_running_mean_rounded_toward_the_old_value() {
    let mut memory = PatternMemory::new(1, 8, 500_000);
    memory.insert(&vec![0], 0).unwrap();
    memory.insert(&vec![100], 1).unwrap();
    assert_eq!(memory.patterns[0].centroid, vec![50]);
    memory.insert(&vec![-51], 0).unwrap();
    // 50 + trunc(-101 / 3) = 50 - 33
    assert_eq!(memory.patterns[0].centroid, vec![17]);
    assert_eq!(memory.patterns[0].member_count, 3);
    assert_eq!(memory.patterns[0].aggregate_quality, 0);
}

#[test]
fn embedding_joins_the_nearest_of_several() {
    let mut memory = PatternMemory::new(1, 8, 500_000);
    memory.insert(&vec![0], 0).unwrap();
    memory.insert(&vec![800_000], 0).unwrap();
    assert_eq!(memory.insert(&vec![450_000], 0), Ok(1));
    // equally near to both centroids: the older pattern takes it
    let mut tie = PatternMemory::new(1, 8, 500_000);
    tie.insert(&vec![0], 0).unwrap();
    tie.insert(&vec![800_000], 0).unwrap();
    assert_eq!(tie.insert(&vec![400_000], 0), Ok(0));
}

#[test]
fn full_memory_evicts_the_pattern_of_lowest_quality() {
    let mut memory = PatternMemory::new(1, 2, 0);
    memory.insert(&vec![0], 900_000).unwrap();
    memory.insert(&vec![10], 200_000).unwrap();
    assert_eq!(memory.insert(&vec![20], 500_000), Ok(2));
    assert_eq!(memory.len(), 2);
    assert_eq!(ids(&memory), vec![0, 2]);
    // equal quality: the oldest leaves
    let mut tie = PatternMemory::new(1, 2, 0);
    tie.insert(&vec![0], 500_000).unwrap();
    tie.insert(&vec![10], 500_000).unwrap();
    assert_eq!(tie.insert(&vec![20], 500_000), Ok(2));
    assert_eq!(ids(&tie), vec![1, 2]);
}

#[test]
fn insert_refuses_malformed_input() {
    let mut memory = PatternMemory::new(2, 2, 0);
    assert_eq!(memory.insert(&vec![0], 0), Err(SonaError::InvalidInput));
    assert_eq!(memory.insert(&vec![0, 1_000_000_001], 0), Err(SonaError::InvalidInput));
    assert_eq!(memory.insert(&vec![0, 0], -1), Err(SonaError::InvalidInput));
    assert_eq!(memory.insert(&vec![0, 0], 1_000_001), Err(SonaError::InvalidInput));
    assert_eq!(memory.len(), 0);
    memory.inserted = u64::MAX;
    assert_eq!(memory.insert(&vec![0, 0], 0), Err(SonaError::InvalidState));
    assert_eq!(memory.len(), 0);
}

#[test]
fn search_orders_by_distance() {
    let mut memory = PatternMemory::new(1, 8, 0);
    for c in [500, 100, 300, 200, 400] {
        memory.insert(&vec![c], 0).unwrap();
    }
    let found = memory.find_similar(&vec![260], 3).unwrap();
    let order: Vec<u64> = found.iter().map(|m| m.pattern.id).collect();
    assert_eq!(order, vec![2, 3, 4]);
    let distances: Vec<i128> = found.iter().map(|m| m.distance_sq).collect();
    assert_eq!(distances, vec![1_600, 3_600, 19_600]);
    assert_eq!(found[0].pattern.centroid, vec![300]);
}

#[test]
fn search_breaks_ties_by_size_then_age() {
    let mut memory = PatternMemory::new(1, 8, 0);
    memory.insert(&vec![-10], 0).unwrap(); // id 0, one member
    memory.insert(&vec![10], 0).unwrap(); // id 1, two members
    memory.insert(&vec![10], 0).unwrap();
    memory.insert(&vec![0], 0).unwrap(); // id 2, nearest
    let found = memory.find_similar(&vec![0], 10).unwrap();
    let order: Vec<u64> = found.iter().map(|m| m.pattern.id).collect();
    assert_eq!(order, vec![2, 1, 0]);

    let mut equal = PatternMemory::new(1, 8, 0);
    equal.insert(&vec![-10], 0).unwrap();
    equal.insert(&vec![10], 0).unwrap();
    let found = equal.find_similar(&vec![0], 2).unwrap();
    let order: Vec<u64> = found.iter().map(|m| m.pattern.id).collect();
    assert_eq!(order, vec![0, 1]);
}

#[test]
fn search_returns_at_most_k_and_nothing_from_an_empty_memory() {
    let mut memory = PatternMemory::new(1, 8, 0);
    assert_eq!(memory.find_similar(&vec![0], 5).unwrap().len(), 0);
    memory.insert(&vec![1], 0).unwrap();
    memory.insert(&vec![2], 0).unwrap();
    assert_eq!(memory.find_similar(&vec![0], 0).unwrap().len(), 0);
    assert_eq!(memory.find_similar(&vec![0], 1).unwrap().len(), 1);
    assert_eq!(memory.find_similar(&vec![0], 5).unwrap().len(), 2);
    assert!(matches!(memory.find_similar(&vec![0, 0], 1), Err(SonaError::InvalidInput)));
    assert!(matches!(memory.find_similar(&vec![1_000_000_001], 1), Err(SonaError::InvalidInput)));
}

#[test]
fn indices_of_nearest_and_weakest() {
    let mut memory = PatternMemory::new(1, 8, 0);
    memory.insert(&vec![100], 700_000).unwrap();
    memory.insert(&vec![-50], 300_000).unwrap();
    memory.insert(&vec![60], 300_000).unwrap();
    assert_eq!(memory.nearest_to(&vec![0]), (1, 2_500));
    assert_eq!(memory.weakest_index(), 1);
    assert_eq!(memory.joins_nearest(&vec![0]), None);
    assert_eq!(memory.joins_nearest(&vec![60]), Some(2));
    assert_eq!(memory.distances(&vec![0]), vec![10_000, 2_500, 3_600]);
    let copy = memory.patterns[0].duplicate();
    assert_eq!(copy.id, 0);
    assert_eq!(copy.centroid, vec![100]);
    assert_eq!(copy.member_count, 1);
    assert_eq!(copy.aggregate_quality, 700_000);
}
