use k2p_matrix::base::Base;
use k2p_matrix::dedup::remove_duplicates;
use k2p_matrix::dist::{distance_is_zero, k2p, Distance, Stats, SCALE};
use k2p_matrix::freq::compute_frequencies;
use k2p_matrix::matrix::{
    bound_class, compute_full_matrix, compute_grouped_matrix, distance, distance_class, Bound,
    CellClass,
};
use k2p_matrix::seqs::Sequence;
use k2p_matrix::weighted::k2p_ambiguity;

fn seq_of(index: usize, group: usize, name: &str, bases: &[Base]) -> Sequence {
    Sequence { index, group, name: String::from(name), seq: bases.to_vec() }
}

fn all_a(n: usize) -> Vec<Base> {
    vec![Base::A; n]
}

fn stats_to_f64(s: &Stats) -> f64 {
    let p = s.p_num as f64 / s.den as f64;
    let q = s.q_num as f64 / s.den as f64;
    -0.5 * ((1.0 - 2.0 * p - q) * (1.0 - 2.0 * q).sqrt()).ln()
}

#[test]
fn self_distance_is_zero() {
    let s = seq_of(0, 0, "s", &all_a(10));
    let d = k2p(&s, &s);
    assert!(distance_is_zero(&d));
}

#[test]
fn self_distance_is_zero_weighted() {
    let mut bases = all_a(10);
    bases[3] = Base::W;
    let s = seq_of(0, 0, "s", &bases);
    let t = seq_of(1, 0, "t", &all_a(10));
    let seqs = vec![s.clone(), t];
    let info = compute_frequencies(&seqs, 1, 1, 2);
    let d = k2p_ambiguity(&s, &s, &info);
    assert!(distance_is_zero(&d));
}

#[test]
fn distance_is_symmetric() {
    let mut b1 = all_a(10);
    b1[0] = Base::G;
    b1[4] = Base::Gap;
    b1[7] = Base::W;
    let mut b2 = all_a(10);
    b2[1] = Base::C;
    b2[7] = Base::T;
    let s1 = seq_of(0, 0, "x", &b1);
    let s2 = seq_of(1, 0, "y", &b2);
    assert_eq!(k2p(&s1, &s2), k2p(&s2, &s1));
    let seqs = vec![s1.clone(), s2.clone()];
    let info = compute_frequencies(&seqs, 1, 1, 2);
    assert_eq!(k2p_ambiguity(&s1, &s2, &info), k2p_ambiguity(&s2, &s1, &info));
}

#[test]
fn no_comparable_positions_is_undefined() {
    let s1 = seq_of(0, 0, "x", &[Base::Gap, Base::N, Base::A]);
    let s2 = seq_of(1, 0, "y", &[Base::A, Base::C, Base::NoneBase]);
    let d = k2p(&s1, &s2);
    assert!(matches!(d, Distance::Undefined));
}

#[test]
fn known_transition_value() {
    let mut b2 = all_a(10);
    b2[0] = Base::G;
    let s1 = seq_of(0, 0, "x", &all_a(10));
    let s2 = seq_of(1, 0, "y", &b2);
    let d = k2p(&s1, &s2);
    match d {
        Distance::Value(s) => {
            assert_eq!(s.p_num, 1);
            assert_eq!(s.q_num, 0);
            assert_eq!(s.den, 10);
            let v = stats_to_f64(&s);
            assert!((v - 0.11157177565710485).abs() < 1e-9);
        }
        Distance::Undefined => panic!("expected a defined distance"),
    }
}

#[test]
fn known_transversion_value() {
    let mut b2 = all_a(10);
    b2[0] = Base::C;
    let s1 = seq_of(0, 0, "x", &all_a(10));
    let s2 = seq_of(1, 0, "y", &b2);
    let d = k2p(&s1, &s2);
    match d {
        Distance::Value(s) => {
            assert_eq!(s.p_num, 0);
            assert_eq!(s.q_num, 1);
            assert_eq!(s.den, 10);
            let v = stats_to_f64(&s);
            assert!((v - 0.1084661456574656).abs() < 1e-9);
        }
        Distance::Undefined => panic!("expected a defined distance"),
    }
}

#[test]
fn deduplication_flags_and_zero_min() {
    let s1 = seq_of(0, 0, "first", &all_a(10));
    let s2 = seq_of(1, 0, "second", &all_a(10));
    let mut other = all_a(10);
    other[0] = Base::G;
    let s3 = seq_of(2, 1, "third", &other);
    let seqs = vec![s1, s2, s3];
    let (unique, offsets, dup) = remove_duplicates(&seqs, 2);
    assert_eq!(unique.len(), 2);
    assert!(dup[0]);
    assert!(!dup[1]);
    assert_eq!(offsets[0].offset, 0);
    assert_eq!(offsets[0].count, 1);
    assert_eq!(offsets[1].offset, 1);
    assert_eq!(offsets[1].count, 1);
    let m = compute_grouped_matrix(&unique, None, &offsets, &dup);
    assert_eq!(m[0][0].min, Bound::Fin(Stats { p_num: 0, q_num: 0, den: 1 }));
    assert_eq!(m[0][0].max, Bound::Fin(Stats { p_num: 0, q_num: 0, den: 1 }));
}

#[test]
fn singleton_group_is_undefined_sentinel_pair() {
    let s1 = seq_of(0, 0, "only", &all_a(10));
    let seqs = vec![s1];
    let (unique, offsets, dup) = remove_duplicates(&seqs, 1);
    let m = compute_grouped_matrix(&unique, None, &offsets, &dup);
    assert_eq!(m[0][0].min, Bound::MinusInf);
    assert_eq!(m[0][0].max, Bound::PlusInf);
}

#[test]
fn threshold_zero_excludes_ambiguous_positions() {
    let mut b1 = all_a(10);
    b1[0] = Base::W;
    let s1 = seq_of(0, 0, "x", &b1);
    let s2 = seq_of(1, 0, "y", &all_a(10));
    let seqs = vec![s1.clone(), s2.clone()];
    let info = compute_frequencies(&seqs, 1, 0, 1);
    let d = k2p_ambiguity(&s1, &s2, &info);
    match d {
        Distance::Value(s) => {
            assert_eq!(s.p_num, 0);
            assert_eq!(s.q_num, 0);
            assert_eq!(s.den, 9 * SCALE);
        }
        Distance::Undefined => panic!("expected a defined distance"),
    }
}

#[test]
fn resolved_ambiguity_with_matching_evidence_is_zero() {
    let mut b1 = all_a(10);
    b1[0] = Base::W;
    let s1 = seq_of(0, 0, "x", &b1);
    let s2 = seq_of(1, 0, "y", &all_a(10));
    let seqs = vec![s1.clone(), s2.clone()];
    let info = compute_frequencies(&seqs, 1, 1, 1);
    let d = k2p_ambiguity(&s1, &s2, &info);
    assert!(distance_is_zero(&d));
    match d {
        Distance::Value(s) => assert_eq!(s.den, 10 * SCALE),
        Distance::Undefined => panic!("expected a defined distance"),
    }
}

#[test]
fn grouped_extrema_track_least_and_greatest_pair() {
    let s1 = seq_of(0, 0, "a", &all_a(10));
    let mut one = all_a(10);
    one[0] = Base::G;
    let s2 = seq_of(1, 0, "b", &one);
    let mut two = all_a(10);
    two[0] = Base::G;
    two[1] = Base::G;
    let s3 = seq_of(2, 0, "c", &two);
    let seqs = vec![s1, s2, s3];
    let (unique, offsets, dup) = remove_duplicates(&seqs, 1);
    assert_eq!(unique.len(), 3);
    let m = compute_grouped_matrix(&unique, None, &offsets, &dup);
    match (m[0][0].min, m[0][0].max) {
        (Bound::Fin(lo), Bound::Fin(hi)) => {
            assert_eq!((lo.p_num, lo.q_num, lo.den), (1, 0, 10));
            assert_eq!((hi.p_num, hi.q_num, hi.den), (2, 0, 10));
        }
        _ => panic!("expected finite extrema"),
    }
}

#[test]
fn full_matrix_is_symmetric_and_triangular() {
    let s1 = seq_of(0, 0, "a", &all_a(10));
    let mut one = all_a(10);
    one[0] = Base::C;
    let s2 = seq_of(1, 0, "b", &one);
    let mut two = all_a(10);
    two[2] = Base::T;
    two[3] = Base::G;
    let s3 = seq_of(2, 1, "c", &two);
    let seqs = vec![s1, s2, s3];
    let m = compute_full_matrix(&seqs, None);
    assert_eq!(m.len(), 3);
    for r in 0..3 {
        assert_eq!(m[r].len(), r + 1);
        for c in 0..=r {
            assert_eq!(m[r][c], distance(&seqs[c], &seqs[r], None));
            assert_eq!(m[r][c], distance(&seqs[r], &seqs[c], None));
        }
    }
}

#[test]
fn saturated_divergence_is_undefined() {
    let s1 = seq_of(0, 0, "a", &[Base::A, Base::A]);
    let s2 = seq_of(1, 0, "b", &[Base::G, Base::G]);
    let d = k2p(&s1, &s2);
    assert!(matches!(d, Distance::Undefined));
}

#[test]
fn base_from_char_reads_the_alphabet() {
    assert_eq!(Base::from('A'), Base::A);
    assert_eq!(Base::from('T'), Base::T);
    assert_eq!(Base::from('W'), Base::W);
    assert_eq!(Base::from('N'), Base::N);
    assert_eq!(Base::from('-'), Base::Gap);
    assert_eq!(Base::from('a'), Base::Gap);
}

#[test]
fn rendering_classes_keep_the_three_way_distinction() {
    let s1 = seq_of(0, 0, "a", &all_a(10));
    let mut one = all_a(10);
    one[0] = Base::G;
    let s2 = seq_of(1, 0, "b", &one);
    assert_eq!(distance_class(&k2p(&s1, &s1)), CellClass::Identical);
    assert_eq!(distance_class(&k2p(&s1, &s2)), CellClass::Numeric);
    let gap1 = seq_of(0, 0, "g", &[Base::Gap]);
    let gap2 = seq_of(1, 0, "h", &[Base::Gap]);
    assert_eq!(distance_class(&k2p(&gap1, &gap2)), CellClass::Undefined);
    assert_eq!(bound_class(&Bound::MinusInf), CellClass::Undefined);
    assert_eq!(bound_class(&Bound::PlusInf), CellClass::Undefined);
    assert_eq!(bound_class(&Bound::Fin(Stats { p_num: 0, q_num: 0, den: 1 })), CellClass::Identical);
}
