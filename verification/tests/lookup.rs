use paddock_metal::qwen35::lookup::{Lookup, Pace, GRAM, MAX_DRAFT};

/// Judge a round of this many tokens in this many seconds.
fn pace(lookup: &Lookup, tokens: usize, seconds: f64) -> Pace {
    let rate = tokens as f64 / seconds;
    let neural = lookup.neural_rate.map(f64::from_bits);
    Pace {
        timed: seconds > 0. && seconds.is_finite(),
        slow: neural.is_some_and(|n| rate < n * 1.05),
        rate: neural.map_or(rate, |old| old * 0.8 + rate * 0.2).to_bits(),
    }
}

fn observe(lookup: &mut Lookup, key: Option<[u32; 6]>, tokens: usize, seconds: f64) {
    let p = pace(lookup, tokens, seconds);
    lookup.observe(key, tokens, p);
}

#[test]
fn short_histories_and_small_budgets_keep_the_index_consistent() {
    for length in 0..GRAM {
        let committed: Vec<u32> = (0..length as u32).collect();
        for budget in 0..=MAX_DRAFT {
            let mut lookup = Lookup::new();
            assert!(lookup.propose(&committed, 99, budget).is_empty());
            let expected: Vec<u32> = committed.iter().copied().chain([99]).collect();
            assert_eq!(lookup.history, expected);
            assert_eq!(lookup.index_len(), usize::from(length + 1 == GRAM));
            if length + 1 == GRAM {
                assert_eq!(lookup.entry(&[0, 1, 2, 3, 4, 99]), Some((GRAM, 0)));
            }
            assert!(lookup.candidate.is_none());
        }
    }
}

#[test]
fn copies_only_prior_continuations_and_respects_budget() {
    let prompt = vec![1, 2, 3, 4, 5, 6, 20, 21, 22, 23, 24, 99, 1, 2, 3, 4, 5];
    for budget in 0..12 {
        let mut lookup = Lookup::new();
        let actual = lookup.propose(&prompt, 6, budget);
        assert_eq!(
            actual,
            if budget < 2 {
                vec![]
            } else {
                vec![20, 21, 22, 23, 24][..budget.min(MAX_DRAFT)].to_vec()
            }
        );
    }
    let mut lookup = Lookup::new();
    assert!(lookup.propose(&vec![1, 2, 3, 4, 5], 6, 5).is_empty());
}

#[test]
fn restores_same_length_histories_and_slot_reuse_do_not_keep_old_matches() {
    let prompt = vec![1, 2, 3, 4, 5, 6, 20, 21, 22, 23, 24, 99, 1, 2, 3, 4, 5];
    let mut lookup = Lookup::new();
    assert_eq!(lookup.propose(&prompt, 6, 5), [20, 21, 22, 23, 24]);
    let mut replacement = prompt.to_vec();
    replacement[6..11].copy_from_slice(&[30, 31, 32, 33, 34]);
    assert_eq!(lookup.propose(&replacement, 6, 5), [30, 31, 32, 33, 34]);
    assert!(lookup.propose(&vec![], 6, 5).is_empty());
    assert_eq!(lookup.index_len(), 0);
}

#[test]
fn rejected_or_expensive_copies_cool_down_but_cheap_copies_continue() {
    let mut lookup = Lookup::new();
    let key = Some([1, 2, 3, 4, 5, 6]);
    observe(&mut lookup, None, 2, 0.05);
    observe(&mut lookup, key, 6, 0.08);
    assert!(lookup.rejected.is_empty());
    observe(&mut lookup, key, 1, 0.08);
    assert_eq!(lookup.rejected.len(), 1);
    lookup.rejected.clear();
    observe(&mut lookup, key, 3, 0.15);
    assert_eq!(lookup.rejected.len(), 1);
    lookup.candidate = key;
    lookup.begin(true);
    lookup.cancel();
    let p = pace(&lookup, 6, 0.08);
    lookup.commit(6, p);
    assert_eq!(lookup.rejected.len(), 1);
    for i in 0..100 {
        observe(&mut lookup, Some([i; GRAM]), 1, 0.08);
    }
    assert_eq!(lookup.rejected.len(), 32);
}

#[test]
fn failed_copy_does_not_disable_unrelated_matches() {
    let mut lookup = Lookup::new();
    let mut history = vec![
        11, 12, 13, 14, 15, 16, 30, 31, 32, 33, 34, 99, 1, 2, 3, 4, 5, 6, 20, 21, 22, 23, 24, 99, 1,
        2, 3, 4, 5,
    ];
    assert_eq!(lookup.propose(&history, 6, 5), [20, 21, 22, 23, 24]);
    let candidate = lookup.candidate;
    observe(&mut lookup, candidate, 1, 0.08);
    history.push(6);
    history.extend([1, 2, 3, 4, 5]);
    assert_eq!(lookup.propose(&history, 6, 5), Vec::<u32>::new());
    history.push(6);
    history.extend([11, 12, 13, 14, 15]);
    assert_eq!(lookup.propose(&history, 16, 5), [30, 31, 32, 33, 34]);
    history.push(16);
    history.extend([0; 64]);
    history.extend([1, 2, 3, 4, 5]);
    assert!(!lookup.propose(&history, 6, 5).is_empty());
    assert!(lookup.rejected.is_empty());
}

#[test]
fn rounds_set_the_rate_only_when_timed() {
    let mut lookup = Lookup::new();
    observe(&mut lookup, None, 2, 0.);
    observe(&mut lookup, None, 2, f64::INFINITY);
    assert_eq!(lookup.neural_rate, None);
    observe(&mut lookup, None, 2, 0.5);
    assert_eq!(lookup.neural_rate, Some(4f64.to_bits()));
    lookup.begin(false);
    let p = pace(&lookup, 7, 0.5);
    lookup.commit(7, p);
    assert_eq!(lookup.neural_rate, Some((4. * 0.8 + 14. * 0.2f64).to_bits()));
    assert!(lookup.round.is_none());
}

#[test]
fn the_index_keeps_the_last_two_ends() {
    let mut lookup = Lookup::new();
    let run = [7u32, 8, 7, 8, 7, 8];
    let mut history: Vec<u32> = run.to_vec();
    history.extend([9]);
    history.extend(run);
    history.extend([9]);
    history.extend(&run[..5]);
    assert_eq!(lookup.propose(&history, 8, 0), Vec::<u32>::new());
    assert_eq!(lookup.entry(&run), Some((20, 13)));
    assert_eq!(lookup.entry(&[1; 6]), None);
    assert_eq!(lookup.propose(&history, 8, 3), [9, 7, 8]);
    assert_eq!(lookup.candidate, Some(run));
}

#[test]
fn used_lookups_answer_like_new_ones() {
    let prompt: Vec<u32> = [1, 2, 3, 4, 5, 6, 20, 21, 22, 23, 24, 99, 1, 2, 3, 4, 5].to_vec();
    let mut other = prompt.clone();
    other[8] = 77;
    let mut used = Lookup::new();
    assert_eq!(used.propose(&prompt, 6, 5), [20, 21, 22, 23, 24]);
    let key = used.candidate;
    observe(&mut used, None, 2, 0.05);
    observe(&mut used, key, 1, 0.08);
    assert!(!used.rejected.is_empty());
    // The replaced history leaves no match, failure or rate behind.
    for (committed, pending) in [(&other, 6), (&prompt, 7), (&vec![], 6)] {
        let mut new = Lookup::new();
        assert_eq!(used.propose(committed, pending, 5), new.propose(committed, pending, 5));
        assert_eq!(used.history, new.history);
        assert_eq!((used.index_len(), used.candidate), (new.index_len(), new.candidate));
        assert_eq!((used.rejected.len(), used.neural_rate), (0, None));
    }
    // Extending a history finds what an index of the whole would find.
    let mut grown = Lookup::new();
    for n in 0..prompt.len() {
        let mut new = Lookup::new();
        let committed = prompt[..n].to_vec();
        assert_eq!(grown.propose(&committed, prompt[n], 5), new.propose(&committed, prompt[n], 5));
        assert_eq!(grown.entry(&[1, 2, 3, 4, 5, 6]), new.entry(&[1, 2, 3, 4, 5, 6]));
    }
}

#[test]
fn commits_without_a_round_have_no_effect() {
    let prompt: Vec<u32> = [1, 2, 3, 4, 5, 6, 20, 21, 22, 23, 24, 99, 1, 2, 3, 4, 5].to_vec();
    let mut l = Lookup::new();
    observe(&mut l, None, 2, 0.05);
    assert_eq!(l.propose(&prompt, 6, 5), [20, 21, 22, 23, 24]);
    let rate = l.neural_rate;
    for lookup in [true, false] {
        l.begin(lookup);
        l.cancel();
        let p = pace(&l, 1, 0.08);
        l.commit(1, p);
        assert_eq!((l.rejected.len(), l.neural_rate), (0, rate));
    }
    assert_eq!(l.propose(&prompt, 6, 5), [20, 21, 22, 23, 24]);
    let p = pace(&l, 1, 0.08);
    l.commit(1, p);
    assert!(l.rejected.is_empty());
    // With a round in flight the same commit is a failure.
    assert!(l.propose(&[prompt.clone(), vec![6]].concat(), 9, 5).is_empty());
    let mut l = Lookup::new();
    l.propose(&prompt, 6, 5);
    l.begin(true);
    let p = pace(&l, 1, 0.08);
    l.commit(1, p);
    assert_eq!(l.rejected.len(), 1);
}
