use spz_sandpile::network::{add_newman_watts_shortcuts, build_eff_num_table, count_edges, make_regular_lattice};
use spz_sandpile::rng::FastRng;

/// The number of shortcuts that the rewiring probability `q` asks for on `n`
/// sites: `round(q * 2n)`.
fn shortcut_target(q: f64, n: usize) -> usize {
    (q * (2 * n) as f64).round() as usize
}

fn edges(net: &Vec<Vec<usize>>) -> usize {
    count_edges(net).unwrap()
}

fn assert_invariants(net: &[Vec<usize>]) {
    let n = net.len();
    for (i, nbrs) in net.iter().enumerate() {
        for w in nbrs.windows(2) {
            assert!(w[0] < w[1], "out[{i}] not strictly increasing");
        }
        for &j in nbrs {
            assert!(j < n, "out-of-range neighbour {j} in out[{i}]");
            assert!(j != i, "self-loop at {i}");
            assert!(net[j].binary_search(&i).is_ok(), "edge {i} -> {j} not reciprocated",);
        }
    }
}

#[test]
fn neighbor_counts_2x2() {
    let net = make_regular_lattice(2);
    assert_eq!(net.len(), 4);
    for nbrs in &net {
        assert_eq!(nbrs.len(), 2);
    }
}

#[test]
fn neighbor_counts_4x4() {
    let l = 4;
    let net = make_regular_lattice(l);
    assert_eq!(net.len(), l * l);

    let mut counts = [0usize; 5];
    for nbrs in &net {
        counts[nbrs.len()] += 1;
    }
    assert_eq!(counts[2], 4);
    assert_eq!(counts[3], 4 * (l - 2));
    assert_eq!(counts[4], (l - 2) * (l - 2));
}

#[test]
fn sorted_and_in_range() {
    let l = 8;
    let n = l * l;
    let net = make_regular_lattice(l);
    for (i, nbrs) in net.iter().enumerate() {
        for w in nbrs.windows(2) {
            assert!(w[0] < w[1], "out[{i}] not strictly increasing");
        }
        for &j in nbrs {
            assert!(j < n, "out-of-range neighbour {j} in out[{i}]");
            assert!(j != i, "self-loop at {i}");
        }
    }
}

#[test]
fn symmetric() {
    let l = 8;
    let net = make_regular_lattice(l);
    for (i, nbrs) in net.iter().enumerate() {
        for &j in nbrs {
            assert!(net[j].binary_search(&i).is_ok(), "edge {i} -> {j} is not reciprocated");
        }
    }
}

#[test]
fn specific_neighbors_4x4() {
    let l = 4;
    let net = make_regular_lattice(l);
    assert_eq!(net[0], vec![1, 4]);
    assert_eq!(net[1], vec![0, 2, 5]);
    assert_eq!(net[5], vec![1, 4, 6, 9]);
    assert_eq!(net[15], vec![11, 14]);
}

#[test]
fn single_site_lattice_has_no_neighbours() {
    let net = make_regular_lattice(1);
    assert_eq!(net, vec![Vec::<usize>::new()]);
}

#[test]
fn nw_q_zero_leaves_lattice_unchanged() {
    let l = 8;
    let base = make_regular_lattice(l);
    let mut net = base.clone();
    let mut rng = FastRng::new(42);
    let added = add_newman_watts_shortcuts(&mut net, shortcut_target(0.0, l * l), &mut rng);
    assert_eq!(added, 0);
    assert_eq!(net, base);
}

#[test]
fn nw_adds_exact_count_and_preserves_invariants() {
    let l = 16;
    let q = 0.1;
    let base = make_regular_lattice(l);
    let e_init = edges(&base);
    let m_expected = (q * (2 * l * l) as f64).round() as usize;

    let mut net = base.clone();
    let mut rng = FastRng::new(123);
    let added = add_newman_watts_shortcuts(&mut net, shortcut_target(q, l * l), &mut rng);

    assert_eq!(added, m_expected);
    assert_eq!(edges(&net) - e_init, added);
    assert_invariants(&net);

    for (i, base_nbrs) in base.iter().enumerate() {
        for &j in base_nbrs {
            assert!(net[i].binary_search(&j).is_ok(), "lattice edge {i}-{j} lost");
        }
    }
}

#[test]
fn nw_target_uses_nominal_2n_base() {
    let l = 8;
    let mut net = make_regular_lattice(l);
    assert_eq!(edges(&net), 2 * l * (l - 1));

    let mut rng = FastRng::new(7);
    let added = add_newman_watts_shortcuts(&mut net, shortcut_target(0.5, l * l), &mut rng);
    assert_eq!(added, 64);
    assert_eq!(edges(&net), 2 * l * (l - 1) + 64);
    assert_invariants(&net);
}

#[test]
fn nw_n_eq_1_returns_zero() {
    let mut net: Vec<Vec<usize>> = vec![Vec::new()];
    let mut rng = FastRng::new(0);
    assert_eq!(add_newman_watts_shortcuts(&mut net, shortcut_target(0.5, 1), &mut rng), 0);
}

#[test]
fn shortcuts_are_capped_by_attempts() {
    // Two sites can hold one edge only: further draws are all rejected, and
    // the loop stops after 1024 * m_target attempts.
    let mut net = make_regular_lattice(1);
    net.push(Vec::new());
    let mut rng = FastRng::new(5);
    let added = add_newman_watts_shortcuts(&mut net, 1, &mut rng);
    assert_eq!(added, 1);
    assert_eq!(net, vec![vec![1], vec![0]]);
}

#[test]
fn count_edges_of_lattice() {
    assert_eq!(count_edges(&make_regular_lattice(1)), Some(0));
    assert_eq!(count_edges(&make_regular_lattice(3)), Some(12));
    assert_eq!(count_edges(&vec![vec![1], vec![0, 2], vec![1]]), Some(2));
}

#[test]
fn eff_num_table_is_four_on_plain_lattice() {
    for l in [2usize, 3, 4, 8] {
        let net = make_regular_lattice(l);
        let table = build_eff_num_table(&net, l);
        assert_eq!(table.len(), l * l);
        assert!(table.iter().all(|&c| c == 4));
    }
}

#[test]
fn eff_num_table_counts_shortcuts_and_boundaries() {
    let mut net = make_regular_lattice(2);
    net[0].push(3);
    net[3].insert(0, 0);
    let table = build_eff_num_table(&net, 2);
    assert_eq!(table, vec![5, 4, 4, 5]);
    let single = build_eff_num_table(&make_regular_lattice(1), 1);
    assert_eq!(single, vec![2]);
}

#[test]
fn nw_drawn_pairs_become_edges_and_generator_advances() {
    let l = 16;
    let n = l * l;
    let base = make_regular_lattice(l);
    let mut net = base.clone();
    let mut rng = FastRng::new(123);
    let added = add_newman_watts_shortcuts(&mut net, 51, &mut rng);
    assert_eq!(added, 51);

    // Replay the draws from the same seed until the generator reaches the
    // state it was left in; every distinct pair drawn on the way is an edge.
    let mut replay = FastRng::new(123);
    let mut pairs: Vec<(usize, usize)> = Vec::new();
    let mut reached = false;
    for _ in 0..(1024 * 51) {
        if replay.clone().next_u64() == rng.clone().next_u64() {
            reached = true;
            break;
        }
        let i = replay.gen_usize_range(0, n);
        let j = replay.gen_usize_range(0, n);
        pairs.push((i, j));
    }
    assert!(reached);
    assert!(!pairs.is_empty());
    // The last pair drawn is the one that completed the target: a new link.
    let &(li, lj) = pairs.last().unwrap();
    assert_ne!(li, lj);
    assert!(base[li].binary_search(&lj).is_err());
    for &(i, j) in &pairs[..pairs.len() - 1] {
        assert!((i, j) != (li, lj) && (i, j) != (lj, li));
    }
    for &(i, j) in &pairs {
        if i != j {
            assert!(net[i].binary_search(&j).is_ok());
            assert!(net[j].binary_search(&i).is_ok());
        }
    }
    let new_edges: usize = pairs
        .iter()
        .filter(|&&(i, j)| i != j && base[i].binary_search(&j).is_err())
        .map(|&(i, j)| if i < j { (i, j) } else { (j, i) })
        .collect::<std::collections::BTreeSet<_>>()
        .len();
    assert_eq!(new_edges, added);
}

#[test]
fn nw_counts_only_pairs_new_in_their_drawn_direction() {
    // Site 0 lists 1 but site 1 does not list 0: a drawn (0, 1) is skipped,
    // a drawn (1, 0) is added and links both directions.
    let mut net: Vec<Vec<usize>> = vec![vec![1], vec![]];
    let mut rng = FastRng::new(11);
    let added = add_newman_watts_shortcuts(&mut net, 1, &mut rng);
    assert_eq!(added, 1);
    assert_eq!(net, vec![vec![1, 1], vec![0]]);
}
