use chess5dtools::eval::{NoEvalFn, RandomLegalMovesetReason};
use chess5dtools::gen::{cut, hc_contains, GenMovesFlag, Sec};
use chess5dtools::time::{exceeds, remaining_after, Duration, Sigma, SigmaFilter, Step, Timed, TimedFilter, TimedFilterTrait};
use chess5dtools::wdl::WDL;
use std::collections::HashMap;

#[test]
fn wdl_constructors() {
    let z = WDL::zero();
    assert_eq!((z.win, z.draw, z.loss, z.sum), (0, 0, 0, 0));
    let w = WDL::win();
    assert_eq!((w.win, w.draw, w.loss, w.sum), (1, 0, 0, 1));
    let d = WDL::draw();
    assert_eq!((d.win, d.draw, d.loss, d.sum), (0, 1, 0, 1));
    let l = WDL::loss();
    assert_eq!((l.win, l.draw, l.loss, l.sum), (0, 0, 1, 1));
    let partial = WDL { win: 1, draw: 2, loss: 3, sum: 10 };
    assert_eq!(partial.remainder(), 4);
}

#[test]
fn wdl_negation_swaps_wins_and_losses() {
    let n = -WDL::win();
    assert_eq!((n.win, n.draw, n.loss, n.sum), (0, 0, 1, 1));
    let a = WDL { win: 2, draw: 3, loss: 5, sum: 10 };
    let b = -(-a);
    assert_eq!((b.win, b.draw, b.loss, b.sum), (2, 3, 5, 10));
}

#[test]
fn wdl_equality_is_proportional() {
    assert!(WDL { win: 1, draw: 0, loss: 1, sum: 2 } == WDL { win: 2, draw: 0, loss: 2, sum: 4 });
    assert!(WDL::win() != WDL::loss());
}

#[test]
fn wdl_order_prefers_fewer_losses_then_more_wins() {
    assert!(WDL::win() > WDL::loss());
    assert!(WDL::draw() > WDL::loss());
    assert!(WDL::win() > WDL::draw());
    assert!(WDL { win: 1, draw: 0, loss: 1, sum: 4 } > WDL { win: 0, draw: 0, loss: 1, sum: 4 });
    assert_eq!(WDL::win().partial_cmp(&WDL::win()), Some(std::cmp::Ordering::Equal));
}

#[test]
fn duration_arithmetic() {
    let a = Duration::new(1, 500_000_000);
    let b = Duration::new(0, 700_000_000);
    assert_eq!(a.saturating_sub(&b), Duration::new(0, 800_000_000));
    assert_eq!(b.saturating_sub(&a), Duration::zero());
    assert_eq!(a.saturating_add(&b), Duration::new(2, 200_000_000));
    assert!(a.gt(&b));
    assert!(!b.gt(&a));
    assert_eq!(Duration::new(0, 2_500_000_000), Duration::new(2, 500_000_000));
    let max = Duration::new(u64::MAX, 999_999_999);
    assert_eq!(max.saturating_add(&a), max);
}

#[test]
fn remaining_time() {
    let d = Duration::new(3, 0);
    assert_eq!(remaining_after(d, Duration::new(1, 0)), Duration::new(2, 0));
    assert_eq!(remaining_after(d, Duration::new(4, 0)), Duration::zero());
    assert!(exceeds(Duration::new(4, 0), d));
    assert!(!exceeds(Duration::new(3, 0), d));
}

#[test]
fn timed_iterator_yields_within_its_duration() {
    let mut it = Timed::new(vec![1, 2, 3].into_iter(), Duration::new(3600, 0));
    assert!(it.elapsed().is_none());
    assert!(!it.timed_out());
    assert_eq!(it.next(), Some(1));
    assert_eq!(it.next(), Some(2));
    assert_eq!(it.next(), Some(3));
    assert_eq!(it.next(), None);
    assert!(it.elapsed().is_some());
    assert!(!it.timed_out());
    assert!(it.remaining().unwrap().gt(&Duration::new(3500, 0)));
}

#[test]
fn timed_iterator_past_its_duration_stops() {
    let start = std::time::Instant::now() - std::time::Duration::from_secs(5);
    let mut it = Timed::with_start(vec![1, 2, 3].into_iter(), Some(start), Duration::new(1, 0));
    assert!(it.timed_out());
    assert_eq!(it.next(), None);
    assert_eq!(it.remaining(), Some(Duration::zero()));
    let mut f = TimedFilter::with_start(vec![1, 2].into_iter(), |_: &i32| true, Some(start), Duration::new(1, 0));
    assert!(f.timed_out());
    assert_eq!(f.next(), None);
}

#[test]
fn sigma_iterator_counts_time_spent() {
    let mut it = Sigma::new(vec![1, 2].into_iter(), Duration::new(3600, 0));
    assert_eq!(it.elapsed(), Duration::zero());
    assert_eq!(it.next(), Some(1));
    assert_eq!(it.next(), Some(2));
    assert_eq!(it.next(), None);
    assert!(!it.timed_out());
    let spent = Sigma::with_sigma(vec![1].into_iter(), Duration::new(5, 0), Duration::new(3, 0));
    assert!(spent.timed_out());
    assert_eq!(spent.remaining(), Duration::zero());
}

#[test]
fn filtered_iterators_keep_matching_items() {
    let mut it = TimedFilter::new(vec![1, 2, 3, 4].into_iter(), |x: &i32| *x % 2 == 0, Duration::new(3600, 0));
    assert_eq!(it.next(), Some(2));
    assert_eq!(it.next(), Some(4));
    assert_eq!(it.next(), None);
    let mut it = SigmaFilter::new(vec![1, 2, 3, 4].into_iter(), |x: &i32| *x > 2, Duration::new(3600, 0));
    assert_eq!(it.next(), Some(3));
    assert_eq!(it.next(), Some(4));
    assert_eq!(it.next(), None);
    assert!(!it.timed_out());
}

#[test]
fn iterator_adaptors() {
    let mut t = vec![5, 6].into_iter().timed(Duration::new(3600, 0));
    assert_eq!(t.next(), Some(5));
    let mut s = vec![5, 6].into_iter().sigma(Duration::new(3600, 0));
    assert_eq!(s.next(), Some(5));
    let mut f = vec![5, 6].into_iter().filter_timed(|x: &i32| *x == 6, Duration::new(3600, 0));
    assert_eq!(f.next(), Some(6));
    let mut g = vec![5, 6].into_iter().filter_sigma(|x: &i32| *x == 5, Duration::new(3600, 0));
    assert_eq!(g.next(), Some(5));
    assert_eq!(g.next(), None);
}

#[test]
fn hypercuboid_membership() {
    let mut hc: HashMap<isize, Vec<usize>> = HashMap::new();
    hc.insert(0, vec![0, 2]);
    hc.insert(1, vec![1]);
    let mut point: HashMap<isize, usize> = HashMap::new();
    point.insert(0, 2);
    point.insert(1, 1);
    assert!(hc_contains(hc.clone(), point.clone()));
    point.insert(0, 1);
    assert!(!hc_contains(hc.clone(), point.clone()));
    assert!(hc_contains(HashMap::new(), point));
    let sec = Sec::Single(hc.clone());
    assert_eq!(sec.clone(), sec);
    let other = Sec::MatchesOne((0, vec![1]), hc);
    assert!(other != sec);
}

#[test]
fn plain_types() {
    assert_eq!(NoEvalFn::new(), NoEvalFn);
    assert!(GenMovesFlag::Any != GenMovesFlag::Check);
    assert!(RandomLegalMovesetReason::Checkmate != RandomLegalMovesetReason::Stalemate);
}

#[test]
fn cutting_a_cross_section() {

    let mut hc: HashMap<isize, Vec<usize>> = HashMap::new();
    hc.insert(0, vec![0, 1, 2]);
    hc.insert(1, vec![0, 1]);
    let mut sections: HashMap<isize, Vec<usize>> = HashMap::new();
    sections.insert(0, vec![1]);
    let parts = cut(hc.clone(), &sections);
    assert_eq!(parts.len(), 1);
    assert_eq!(parts[0][&0], vec![0, 2]);
    assert_eq!(parts[0][&1], vec![0, 1]);

    sections.insert(1, vec![0]);
    let parts = cut(hc, &sections);
    assert_eq!(parts.len(), 2);
    // The parts are disjoint and, together with the cross section {1} x {0}, cover the hypercuboid.
    let mut covered = 0;
    for a in [0usize, 1, 2] {
        for b in [0usize, 1] {
            let mut point: HashMap<isize, usize> = HashMap::new();
            point.insert(0, a);
            point.insert(1, b);
            let n = parts.iter().filter(|p| hc_contains((*p).clone(), point.clone())).count();
            let in_section = a == 1 && b == 0;
            assert_eq!(n, if in_section { 0 } else { 1 });
            covered += n;
        }
    }
    assert_eq!(covered, 5);
}

#[test]
fn started_timers_with_no_duration_have_nothing_left() {
    let timed = Timed::with_start(vec![1, 2, 3].into_iter(), Some(std::time::Instant::now()), Duration::zero());
    assert_eq!(timed.size_hint(), (0, Some(0)));
    let filter = TimedFilter::with_start(vec![1, 2, 3].into_iter(), |_: &i32| true, Some(std::time::Instant::now()), Duration::zero());
    assert_eq!(filter.size_hint(), (0, Some(0)));
    let forever = Timed::with_start(vec![1].into_iter(), Some(std::time::Instant::now()), Duration::new(u64::MAX, 999_999_999));
    assert!(!forever.timed_out());
}

#[test]
fn iterators_with_the_largest_duration_never_time_out() {
    let max = Duration::new(u64::MAX, 999_999_999);
    let mut timed = Timed::new(vec![1, 2].into_iter(), max);
    assert_eq!(timed.next(), Some(1));
    assert_eq!(timed.next(), Some(2));
    assert_eq!(timed.next(), None);
    let mut filter = TimedFilter::new(vec![1, 2, 3, 4].into_iter(), |x: &i32| x % 2 == 0, max);
    assert_eq!(filter.next(), Some(2));
    assert_eq!(filter.next(), Some(4));
    assert_eq!(filter.next(), None);
    let mut sigma = SigmaFilter::new(vec![1, 2, 3].into_iter(), |x: &i32| *x > 1, max);
    assert_eq!(sigma.next(), Some(2));
    assert_eq!(sigma.next(), Some(3));
    assert_eq!(sigma.next(), None);
}

#[test]
fn sigma_size_hint_when_exactly_spent() {
    let s = Sigma::with_sigma(vec![1, 2].into_iter(), Duration::new(1, 0), Duration::new(1, 0));
    assert_eq!(s.size_hint(), (0, Some(2)));
    let s = Sigma::with_sigma(vec![1, 2].into_iter(), Duration::new(1, 1), Duration::new(1, 0));
    assert_eq!(s.size_hint(), (0, Some(0)));
}

#[test]
fn steps_decide_by_the_time_read() {
    let second = Duration::new(1, 0);
    let mut timed = Timed::new(vec![1, 2].into_iter(), second);
    assert_eq!(timed.step(Duration::new(2, 0)), None);
    assert_eq!(timed.step(Duration::new(1, 0)), Some(1));
    assert_eq!(timed.iterator.len(), 1);
    let mut filter = TimedFilter::new(vec![1, 2].into_iter(), |x: &i32| *x == 2, second);
    assert!(matches!(filter.step(Duration::new(1, 1)), Step::Stop));
    assert_eq!(filter.iterator.len(), 2);
    assert!(matches!(filter.step(Duration::zero()), Step::Skip));
    assert!(matches!(filter.step(Duration::zero()), Step::Yield(2)));
    assert!(matches!(filter.step(Duration::zero()), Step::Stop));
    let mut sigma = SigmaFilter::new(vec![3].into_iter(), |x: &i32| *x == 3, second);
    assert!(matches!(sigma.step(Duration::new(5, 0)), Step::Stop));
    assert!(matches!(sigma.step(second), Step::Yield(3)));
}
