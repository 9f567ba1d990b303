use llm_router::balance::{LoadBalanceStrategy, LoadBalancerConfig};

fn pool(strategy: LoadBalanceStrategy, names: &[&str]) -> LoadBalancerConfig {
    LoadBalancerConfig {
        strategy,
        backends: names.iter().map(|s| s.to_string()).collect(),
        counter: 0,
    }
}

#[test]
fn test_load_balancer_select_index_shuffle() {
    let mut lb = pool(LoadBalanceStrategy::Shuffle, &["backend1", "backend2", "backend3"]);

    for seed in 0..100 {
        let index = lb.select_index(seed);
        assert!(index < 3, "Index {} out of range for seed {}", index, seed);
    }

    assert_eq!(lb.select_index(42), lb.select_index(42));
    assert_eq!(lb.select_index(100), lb.select_index(100));
}

#[test]
fn test_load_balancer_select_index_round_robin() {
    let mut lb = pool(LoadBalanceStrategy::RoundRobin, &["backend1", "backend2", "backend3"]);

    assert_eq!(lb.select_index(0), 0);
    assert_eq!(lb.select_index(0), 1);
    assert_eq!(lb.select_index(0), 2);
    assert_eq!(lb.select_index(0), 0);
    assert_eq!(lb.select_index(0), 1);
}

#[test]
fn test_load_balancer_get_backend() {
    let lb = pool(LoadBalanceStrategy::Shuffle, &["backend1", "backend2", "backend3"]);

    assert_eq!(lb.get_backend(0), Some("backend1"));
    assert_eq!(lb.get_backend(1), Some("backend2"));
    assert_eq!(lb.get_backend(2), Some("backend3"));
    assert_eq!(lb.get_backend(3), None);
    assert_eq!(lb.get_backend(usize::MAX), None);
}

#[test]
fn test_load_balancer_single_backend() {
    let mut lb = pool(LoadBalanceStrategy::Shuffle, &["only-backend"]);

    for seed in 0..10 {
        assert_eq!(lb.select_index(seed), 0);
    }
    assert_eq!(lb.get_backend(0), Some("only-backend"));
}

#[test]
fn test_load_balancer_round_robin_multiple_cycles() {
    let mut lb = pool(LoadBalanceStrategy::RoundRobin, &["b1", "b2"]);

    let mut results = Vec::new();
    for _ in 0..10 {
        results.push(lb.select_index(0));
    }

    let expected = vec![0, 1, 0, 1, 0, 1, 0, 1, 0, 1];
    assert_eq!(results, expected);
}

#[test]
fn shuffle_goes_by_the_seed_and_keeps_the_counter() {
    let mut lb = pool(LoadBalanceStrategy::Shuffle, &["a", "b", "c"]);
    assert_eq!(lb.select_index(41), 2);
    assert_eq!(lb.select_index(42), 0);
    assert_eq!(lb.counter, 0);
}

#[test]
fn round_robin_comes_to_every_backend_whatever_the_seed() {
    let mut lb = pool(LoadBalanceStrategy::RoundRobin, &["a", "b", "c"]);
    lb.counter = 7;
    let mut seen = vec![lb.select_index(9), lb.select_index(9), lb.select_index(9)];
    assert_eq!(seen, vec![1, 2, 0]);
    seen.sort();
    assert_eq!(seen, vec![0, 1, 2]);
    assert_eq!(lb.counter, 10);
}

#[test]
fn round_robin_counter_starts_over() {
    let mut lb = pool(LoadBalanceStrategy::RoundRobin, &["a", "b", "c"]);
    lb.counter = usize::MAX;
    assert_eq!(lb.select_index(0), usize::MAX % 3);
    assert_eq!(lb.counter, 0);
}

#[test]
fn default_strategy() {
    assert_eq!(LoadBalanceStrategy::default(), LoadBalanceStrategy::Shuffle);
}
