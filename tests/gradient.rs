use gradient_slice::Gradient;

fn strings(mut g: Gradient<char>) -> Vec<String> {
    let mut out = Vec::new();
    while let Some(w) = g.next() {
        out.push(w.iter().collect::<String>());
    }
    out
}

fn collect<G: Clone>(mut g: Gradient<G>) -> Vec<Vec<G>> {
    let mut out = Vec::new();
    while let Some(w) = g.next() {
        out.push(Vec::from(w));
    }
    out
}

fn ranges<G>(mut g: Gradient<G>) -> Vec<(usize, usize, usize)> {
    let mut out = Vec::new();
    while g.next().is_some() {
        out.push((g.start(), g.end(), g.width()));
    }
    out
}

#[test]
fn gradient() {
    let result = strings(Gradient::new(" abc ".chars().collect()));
    assert_eq!(
        result,
        vec![
            " ", "a", "b", "c", " ", " a", "ab", "bc", "c ", " ab", "abc", "bc ", " abc",
            "abc ", " abc "
        ]
    );
}

#[test]
fn empty() {
    assert_eq!(collect(Gradient::new(Vec::<char>::new())).len(), 0);
}

#[test]
fn max_width() {
    let result = strings(Gradient::new(" abc ".chars().collect()).with_max_width(2));
    assert_eq!(
        result,
        vec![" ", "a", "b", "c", " ", " a", "ab", "bc", "c "]
    );
}

#[test]
fn bytes_in_order() {
    let result = collect(Gradient::new(0x1BADB002u32.to_be_bytes().to_vec()));
    assert_eq!(
        result,
        vec![
            vec![27],
            vec![173],
            vec![176],
            vec![2],
            vec![27, 173],
            vec![173, 176],
            vec![176, 2],
            vec![27, 173, 176],
            vec![173, 176, 2],
            vec![27, 173, 176, 2]
        ]
    );
}

#[test]
fn triangular_count_and_shape() {
    for n in 0usize..12 {
        let r = ranges(Gradient::new((0..n).collect::<Vec<usize>>()));
        assert_eq!(r.len(), n * (n + 1) / 2);
        for &(start, end, width) in &r {
            assert_eq!(end - start, width);
            assert!(end <= n);
        }
        if n > 0 {
            assert_eq!(r.last().unwrap().2, n);
        }
    }
}

#[test]
fn widths_come_in_consecutive_passes() {
    let n: usize = 7;
    let r = ranges(Gradient::new(vec![0u8; n]));
    let mut i: usize = 0;
    for w in 1..=n {
        for s in 0..=(n - w) {
            assert_eq!(r[i], (s, s + w, w));
            i += 1;
        }
    }
    assert_eq!(i, r.len());
    for pair in r.windows(2) {
        assert!(pair[0].2 <= pair[1].2);
    }
}

#[test]
fn capped_count() {
    let n: usize = 6;
    for cap in 1..n {
        let r = ranges(Gradient::new(vec!['x'; n]).with_max_width(cap));
        let expected: usize = (1..=cap).map(|w| n - w + 1).sum();
        assert_eq!(r.len(), expected);
        assert!(r.iter().all(|&(_, _, w)| w <= cap));
    }
}

#[test]
fn cap_of_zero_yields_nothing() {
    let mut g = Gradient::new(vec![1, 2, 3]).with_max_width(0);
    assert!(g.next().is_none());
    assert!(g.next().is_none());
}

#[test]
fn cap_at_or_above_length_changes_nothing() {
    let full = collect(Gradient::new(vec![4, 5, 6]));
    assert_eq!(collect(Gradient::new(vec![4, 5, 6]).with_max_width(3)), full);
    assert_eq!(collect(Gradient::new(vec![4, 5, 6]).with_max_width(10)), full);
}

#[test]
fn empty_with_cap_yields_nothing() {
    assert_eq!(collect(Gradient::new(Vec::<u8>::new()).with_max_width(3)).len(), 0);
}

#[test]
fn accessors_before_first_advance() {
    let g = Gradient::new(vec!['p', 'q']);
    assert_eq!(g.start(), 0);
    assert_eq!(g.end(), 0);
    assert_eq!(g.width(), 1);
    assert_eq!(g.len(), 2);
    assert_eq!(g.range(), 0..0);
    assert!(g.window().is_empty());
    assert!(!g.finished());
}

#[test]
fn accessors_repeat_between_advances() {
    let mut g = Gradient::new(vec![10, 20, 30, 40]);
    g.next();
    g.next();
    g.next();
    g.next();
    g.next();
    for _ in 0..3 {
        assert_eq!(g.start(), 0);
        assert_eq!(g.end(), 2);
        assert_eq!(g.width(), 2);
        assert_eq!(g.range(), 0..2);
        assert_eq!(g.window(), &[10, 20][..]);
        assert_eq!(g.len(), 4);
        assert_eq!(g.input(), vec![10, 20, 30, 40]);
        assert!(!g.finished());
    }
}

#[test]
fn exhausted_stays_put() {
    let mut g = Gradient::new(vec!['a', 'b']);
    while g.next().is_some() {}
    assert!(g.finished());
    assert_eq!(g.range(), 0..2);
    assert_eq!(g.window(), &['a', 'b'][..]);
    assert!(g.next().is_none());
    assert_eq!(g.range(), 0..2);
    assert_eq!(g.width(), 2);
}

#[test]
fn empty_is_finished_from_the_start() {
    let g = Gradient::new(Vec::<i32>::new());
    assert!(g.finished());
    assert_eq!(g.len(), 0);
}

#[test]
fn single_element() {
    assert_eq!(collect(Gradient::new(vec![9])), vec![vec![9]]);
}

#[test]
fn capped_copy_leaves_base_untouched() {
    let base = Gradient::new(" abc ".chars().collect());
    let capped = base.clone().with_max_width(1);
    assert_eq!(strings(capped), vec![" ", "a", "b", "c", " "]);
    assert_eq!(strings(base).len(), 15);
}

#[test]
fn cap_keeps_position() {
    let mut g = Gradient::new(vec![1, 2, 3]);
    g.next();
    g.next();
    let mut capped = g.with_max_width(1);
    assert_eq!(capped.range(), 1..2);
    assert_eq!(capped.next(), Some(&[3][..]));
    assert_eq!(capped.next(), None);
}

#[test]
fn clone_keeps_position_and_input() {
    let mut g = Gradient::new(vec!['x', 'y', 'z']);
    g.next();
    let c = g.clone();
    assert_eq!(c, g);
    assert_eq!(c.input(), vec!['x', 'y', 'z']);
    assert_eq!(c.range(), 0..1);
}
