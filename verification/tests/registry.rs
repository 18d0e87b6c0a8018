use perl_xs::registry::{Registry, Ticket};

#[test]
fn empty_registry_yields_nothing() {
    let registry: Registry<&'static str> = Registry::new();
    assert_eq!(registry.len(), 0);
    assert!(registry.iter().next().is_none());
    assert!(registry.collect().is_empty());
}

#[test]
fn submitted_entries_come_out_newest_first() {
    let mut registry = Registry::new();
    registry.submit(("a", 1));
    registry.submit(("b", 2));
    registry.submit(("c", 3));
    assert_eq!(registry.collect(), vec![&("c", 3), &("b", 2), &("a", 1)]);
    let mut it = registry.iter();
    assert_eq!(it.next(), Some(&("c", 3)));
    assert_eq!(it.next(), Some(&("b", 2)));
    assert_eq!(it.next(), Some(&("a", 1)));
    assert_eq!(it.next(), None);
    assert_eq!(it.next(), None);
    assert_eq!(registry.collect().len(), 3);
}

#[test]
fn a_submitter_that_lost_the_race_tries_again() {
    let mut registry = Registry::new();
    let mut slow = registry.prepare("slow");
    let mut fast = registry.prepare("fast");
    assert!(registry.compare_and_swap(&mut fast));
    assert!(!registry.compare_and_swap(&mut slow));
    assert!(registry.compare_and_swap(&mut slow));
    registry.link(slow);
    registry.link(fast);
    assert_eq!(registry.collect(), vec![&"slow", &"fast"]);
}

#[test]
fn a_node_that_is_not_linked_yet_hides_what_is_below_it() {
    let mut registry = Registry::new();
    registry.submit(1);
    let mut t = registry.prepare(2);
    assert_eq!(registry.collect(), vec![&1]);
    assert!(registry.compare_and_swap(&mut t));
    assert_eq!(registry.collect(), vec![&2]);
    registry.link(t);
    assert_eq!(registry.collect(), vec![&2, &1]);
}

fn drain_after(n: usize, seed: u64) -> Vec<usize> {
    let mut registry: Registry<usize> = Registry::new();
    let mut state = seed;
    let mut next = move || {
        state = state.wrapping_mul(6364136223846793005).wrapping_add(1442695040888963407);
        (state >> 33) as usize
    };
    let mut waiting: Vec<Ticket> = Vec::new();
    let mut pending: Vec<Ticket> = Vec::new();
    let mut prepared = 0;
    while prepared < n || !waiting.is_empty() || !pending.is_empty() {
        match next() % 3 {
            0 if prepared < n => {
                waiting.push(registry.prepare(prepared));
                prepared += 1;
            },
            1 if !waiting.is_empty() => {
                let i = next() % waiting.len();
                let mut t = waiting.swap_remove(i);
                if registry.compare_and_swap(&mut t) {
                    pending.push(t);
                } else {
                    waiting.push(t);
                }
            },
            2 if !pending.is_empty() => {
                let i = next() % pending.len();
                let t = pending.swap_remove(i);
                registry.link(t);
            },
            _ => {},
        }
    }
    registry.collect().into_iter().copied().collect()
}

#[test]
fn every_interleaving_drains_to_every_entry_once() {
    for seed in 0..200 {
        let n = (seed % 17) as usize;
        let mut seen = drain_after(n, seed);
        assert_eq!(seen.len(), n);
        seen.sort();
        seen.dedup();
        assert_eq!(seen, (0..n).collect::<Vec<usize>>());
    }
}
