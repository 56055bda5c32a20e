//! What a whole run of a gradient produces, stated over the states that
//! repeated advances pass through.
//!
//! `Gradient::new(s)` has the view `GradientView::initial(s@, None)`, and
//! `with_max_width(w)` on it gives `GradientView::initial(s@, Some(w))`.
//! Each call of `Gradient::next` moves the view one `advanced()` step and
//! yields a window exactly when the view before the call `yields()`. So after
//! `k` calls a gradient stands at `advanced_by(initial, k)`, and its
//! `k + 1`-th call yields a window exactly when that state `yields()`.
use crate::gradient::GradientView;
use vstd::prelude::*;

verus! {

/// The state after `k` advances from `m`.
pub open spec fn advanced_by<G>(m: GradientView<G>, k: nat) -> GradientView<G>
    decreases k,
{
    if k == 0 {
        m
    } else {
        advanced_by(m, (k - 1) as nat).advanced()
    }
}

/// The number of windows of width at most `w` in an input of `n` elements:
/// the sum over each width `v` from 1 to `w` of its `n - v + 1` offsets.
pub open spec fn windows_up_to(n: nat, w: nat) -> nat
    decreases w,
{
    if w == 0 {
        0
    } else {
        windows_up_to(n, (w - 1) as nat) + (n + 1 - w) as nat
    }
}

/// The state stands on a window of the input, or before the first one.
spec fn placed<G>(m: GradientView<G>) -> bool {
    if m.end == 0 {
        m.start == 0 && m.width == 1
    } else {
        &&& 1 <= m.width <= m.end <= m.len()
        &&& m.start == m.end - m.width
    }
}

/// How many windows lead up to and include the current one.
spec fn rank<G>(m: GradientView<G>) -> nat {
    if m.end == 0 {
        0
    } else {
        windows_up_to(m.len(), (m.width - 1) as nat) + m.start + 1
    }
}

proof fn lemma_windows_grow(n: nat, a: nat, b: nat)
    requires
        a <= b <= n,
    ensures
        windows_up_to(n, a) + (b - a) <= windows_up_to(n, b),
    decreases b,
{
    if a < b {
        lemma_windows_grow(n, a, (b - 1) as nat);
    }
}

proof fn lemma_windows_closed_form(n: nat, w: nat)
    requires
        w <= n,
    ensures
        2 * windows_up_to(n, w) == w * (2 * n + 1 - w),
    decreases w,
{
    if w > 0 {
        let v = (w - 1) as nat;
        lemma_windows_closed_form(n, v);
        assert(windows_up_to(n, w) == windows_up_to(n, v) + (n + 1 - w));
        assert(2 * windows_up_to(n, v) == v * (2 * n + 1 - v));
        assert(v * (2 * n + 1 - v) + 2 * (n + 1 - w) == w * (2 * n + 1 - w)) by (nonlinear_arith)
            requires
                v == w - 1,
        ;
        assert(2 * windows_up_to(n, w) == v * (2 * n + 1 - v) + 2 * (n + 1 - w));
    } else {
        assert(w * (2 * n + 1 - w) == 0) by (nonlinear_arith)
            requires
                w == 0,
        ;
    }
}

proof fn lemma_advance_in_order<G>(m: GradientView<G>)
    requires
        placed(m),
        !m.finished(),
    ensures
        placed(m.advanced()),
        rank(m.advanced()) == rank(m) + 1,
        m.advanced().len() == m.len(),
{
    let n = m.len();
    if m.end == n {
        assert(windows_up_to(n, m.width) == windows_up_to(n, (m.width - 1) as nat) + (n + 1
            - m.width));
    }
}

/// A state that has not finished has fewer windows behind it than the input
/// has in all; a finished one has exactly that many.
proof fn lemma_rank_bound<G>(m: GradientView<G>)
    requires
        placed(m),
        m.len() > 0,
    ensures
        m.finished() <==> rank(m) == windows_up_to(m.len(), m.len()),
{
    let n = m.len();
    let w = m.width;
    if m.end > 0 {
        lemma_windows_grow(n, w, n);
        assert(windows_up_to(n, w) == windows_up_to(n, (w - 1) as nat) + (n + 1 - w));
    } else {
        lemma_windows_grow(n, 1, n);
    }
}

proof fn lemma_advanced_by_split<G>(m: GradientView<G>, a: nat, b: nat)
    ensures
        advanced_by(m, a + b) == advanced_by(advanced_by(m, a), b),
    decreases b,
{
    if b > 0 {
        lemma_advanced_by_split(m, a, (b - 1) as nat);
        assert((a + b - 1) as nat == a + (b - 1) as nat);
    }
}

proof fn lemma_advanced_by_keeps<G>(m: GradientView<G>, k: nat)
    ensures
        advanced_by(m, k).input == m.input,
        advanced_by(m, k).max_width == m.max_width,
    decreases k,
{
    if k > 0 {
        lemma_advanced_by_keeps(m, (k - 1) as nat);
    }
}

proof fn lemma_finished_stays<G>(m: GradientView<G>, k: nat)
    requires
        m.finished(),
    ensures
        advanced_by(m, k) == m,
    decreases k,
{
    if k > 0 {
        lemma_finished_stays(m, (k - 1) as nat);
    }
}

/// Up to the end of the run, the `k`-th state from the start stands on the
/// window with exactly `k` windows up to it.
proof fn lemma_reach<G>(input: Seq<G>, max_width: Option<nat>, k: nat)
    requires
        k <= windows_up_to(input.len(), input.len()),
    ensures
        placed(advanced_by(GradientView::initial(input, max_width), k)),
        rank(advanced_by(GradientView::initial(input, max_width), k)) == k,
        advanced_by(GradientView::initial(input, max_width), k).len() == input.len(),
    decreases k,
{
    let m0 = GradientView::initial(input, max_width);
    if k > 0 {
        lemma_reach(input, max_width, (k - 1) as nat);
        let prev = advanced_by(m0, (k - 1) as nat);
        lemma_rank_bound(prev);
        lemma_advance_in_order(prev);
    }
}

/// The window that the `k + 1`-th advance reaches, where `k` lies in the
/// span of the pass at width `w`.
proof fn lemma_window_at<G>(input: Seq<G>, max_width: Option<nat>, w: nat, k: nat)
    requires
        1 <= w <= input.len(),
        windows_up_to(input.len(), (w - 1) as nat) <= k < windows_up_to(input.len(), w),
    ensures
        advanced_by(GradientView::initial(input, max_width), k + 1).width == w,
        advanced_by(GradientView::initial(input, max_width), k + 1).start == k - windows_up_to(
            input.len(),
            (w - 1) as nat,
        ),
        advanced_by(GradientView::initial(input, max_width), k + 1).end == k - windows_up_to(
            input.len(),
            (w - 1) as nat,
        ) + w,
{
    let n = input.len();
    lemma_windows_grow(n, w, n);
    lemma_reach(input, max_width, k + 1);
    let m = advanced_by(GradientView::initial(input, max_width), k + 1);
    let v = m.width;
    assert(windows_up_to(n, v) == windows_up_to(n, (v - 1) as nat) + (n + 1 - v));
    if v < w {
        lemma_windows_grow(n, v, (w - 1) as nat);
    } else if v > w {
        lemma_windows_grow(n, w, (v - 1) as nat);
    }
}

/// Whether the `k + 1`-th advance from the start yields a window, for `k`
/// within the run.
proof fn lemma_yields_within<G>(input: Seq<G>, max_width: Option<nat>, k: nat)
    requires
        k < windows_up_to(input.len(), input.len()),
    ensures
        advanced_by(GradientView::initial(input, max_width), k).yields() <==> GradientView::initial(
            input,
            max_width,
        ).allows(advanced_by(GradientView::initial(input, max_width), k + 1).width),
{
    let m0 = GradientView::initial(input, max_width);
    lemma_reach(input, max_width, k);
    lemma_advanced_by_keeps(m0, k);
    lemma_rank_bound(advanced_by(m0, k));
    assert(advanced_by(m0, k + 1) == advanced_by(m0, k).advanced());
}

/// Once the run is over, no advance yields a window.
proof fn lemma_yields_beyond<G>(input: Seq<G>, max_width: Option<nat>, k: nat)
    requires
        k >= windows_up_to(input.len(), input.len()),
    ensures
        advanced_by(GradientView::initial(input, max_width), k).finished(),
        !advanced_by(GradientView::initial(input, max_width), k).yields(),
{
    let n = input.len();
    let m0 = GradientView::initial(input, max_width);
    let t = windows_up_to(n, n);
    if n > 0 {
        lemma_reach(input, max_width, t);
        lemma_rank_bound(advanced_by(m0, t));
        lemma_advanced_by_split(m0, t, (k - t) as nat);
        lemma_finished_stays(advanced_by(m0, t), (k - t) as nat);
    } else {
        lemma_finished_stays(m0, k);
    }
}

/// Widths never shrink: a later state of a run is at least as wide as an
/// earlier one.
pub proof fn lemma_widths_nondecreasing<G>(m: GradientView<G>, j: nat, k: nat)
    requires
        j <= k,
    ensures
        advanced_by(m, j).width <= advanced_by(m, k).width,
    decreases k,
{
    if j < k {
        lemma_widths_nondecreasing(m, j, (k - 1) as nat);
    }
}

/// Passes come one width at a time: for each width `w` from 1 to the length
/// `n` of the input, the advances numbered `windows_up_to(n, w - 1) + 1`
/// through `windows_up_to(n, w)`, which are `n - w + 1` in number, reach the
/// windows of width `w` at offsets 0, 1, ..., `n - w` in that order.
pub proof fn lemma_pass_order<G>(input: Seq<G>, max_width: Option<nat>, w: nat)
    requires
        1 <= w <= input.len(),
    ensures
        windows_up_to(input.len(), w) - windows_up_to(input.len(), (w - 1) as nat) == input.len()
            - w + 1,
        forall|s: nat|
            s + w <= input.len() ==> {
                let m = #[trigger] advanced_by(
                    GradientView::initial(input, max_width),
                    windows_up_to(input.len(), (w - 1) as nat) + s + 1,
                );
                m.start == s && m.end == s + w && m.width == w
            },
{
    let n = input.len();
    let b = windows_up_to(n, (w - 1) as nat);
    assert forall|s: nat| s + w <= n implies {
        let m = #[trigger] advanced_by(GradientView::initial(input, max_width), b + s + 1);
        m.start == s && m.end == s + w && m.width == w
    } by {
        lemma_window_at(input, max_width, w, b + s);
    }
}

/// Without a maximum width, a gradient over `n` elements yields exactly
/// `n * (n + 1) / 2` windows, one on each of its first advances and none
/// after; the last of them spans the whole input.
pub proof fn lemma_count_without_max<G>(input: Seq<G>)
    ensures
        forall|k: nat|
            k < input.len() * (input.len() + 1) / 2 ==> #[trigger] advanced_by(
                GradientView::initial(input, None),
                k,
            ).yields(),
        forall|k: nat|
            k >= input.len() * (input.len() + 1) / 2 ==> !#[trigger] advanced_by(
                GradientView::initial(input, None),
                k,
            ).yields(),
        input.len() > 0 ==> advanced_by(
            GradientView::initial(input, None),
            input.len() * (input.len() + 1) / 2,
        ).width == input.len(),
{
    let n = input.len();
    let t = windows_up_to(n, n);
    lemma_windows_closed_form(n, n);
    assert(t == n * (n + 1) / 2) by (nonlinear_arith)
        requires
            2 * t == n * (2 * n + 1 - n),
    ;
    assert forall|k: nat| k < t implies #[trigger] advanced_by(
        GradientView::initial(input, None),
        k,
    ).yields() by {
        lemma_yields_within(input, None, k);
    }
    assert forall|k: nat| k >= t implies !#[trigger] advanced_by(
        GradientView::initial(input, None),
        k,
    ).yields() by {
        lemma_yields_beyond(input, None, k);
    }
    lemma_yields_beyond(input, None, t);
    lemma_advanced_by_keeps(GradientView::initial(input, None), t);
    assert(advanced_by(GradientView::initial(input, None), t).finished());
}

/// An empty input yields no window, whatever the maximum width.
pub proof fn lemma_empty_yields_nothing<G>(input: Seq<G>, max_width: Option<nat>)
    requires
        input.len() == 0,
    ensures
        forall|k: nat| !#[trigger] advanced_by(GradientView::initial(input, max_width), k).yields(),
{
    assert forall|k: nat| !#[trigger] advanced_by(
        GradientView::initial(input, max_width),
        k,
    ).yields() by {
        lemma_yields_beyond(input, max_width, k);
    }
}

/// With a maximum width `W` below the length `n` of the input, a gradient
/// yields exactly `windows_up_to(n, W)` windows, the sum over each width `w`
/// from 1 to `W` of `n - w + 1`, one on each of its first advances and none
/// after; none of them is wider than `W`.
pub proof fn lemma_count_with_max<G>(input: Seq<G>, max_width: nat)
    requires
        1 <= max_width < input.len(),
    ensures
        forall|k: nat|
            k < windows_up_to(input.len(), max_width) ==> #[trigger] advanced_by(
                GradientView::initial(input, Some(max_width)),
                k,
            ).yields(),
        forall|k: nat|
            k >= windows_up_to(input.len(), max_width) ==> !#[trigger] advanced_by(
                GradientView::initial(input, Some(max_width)),
                k,
            ).yields(),
        forall|k: nat|
            #[trigger] advanced_by(GradientView::initial(input, Some(max_width)), k).yields()
                ==> advanced_by(GradientView::initial(input, Some(max_width)), k + 1).width
                <= max_width,
{
    let n = input.len();
    let m0 = GradientView::initial(input, Some(max_width));
    let t = windows_up_to(n, max_width);
    lemma_windows_grow(n, max_width, n);
    assert forall|k: nat| #[trigger] advanced_by(m0, k).yields() implies advanced_by(
        m0,
        k + 1,
    ).width <= max_width by {
        lemma_advanced_by_keeps(m0, k);
        assert(advanced_by(m0, (k + 1) as nat) == advanced_by(m0, k).advanced());
    }
    assert forall|k: nat| k < t implies #[trigger] advanced_by(m0, k).yields() by {
        let w = pass_of(n, max_width, k);
        lemma_pass_of(n, max_width, k);
        lemma_window_at(input, Some(max_width), w, k);
        if w > max_width {
            lemma_windows_grow(n, max_width, (w - 1) as nat);
        }
        lemma_yields_within(input, Some(max_width), k);
    }
    assert forall|k: nat| k >= t implies !#[trigger] advanced_by(m0, k).yields() by {
        if k < windows_up_to(n, n) {
            let w = pass_of(n, n, k);
            lemma_pass_of(n, n, k);
            lemma_window_at(input, Some(max_width), w, k);
            if w <= max_width {
                lemma_windows_grow(n, w, max_width);
            }
            lemma_yields_within(input, Some(max_width), k);
        } else {
            lemma_yields_beyond(input, Some(max_width), k);
        }
    }
}

/// The width, at most `w`, of the pass that the `k + 1`-th window of an
/// input of `n` elements belongs to.
spec fn pass_of(n: nat, w: nat, k: nat) -> nat
    decreases w,
{
    if w == 0 {
        0
    } else if k >= windows_up_to(n, (w - 1) as nat) {
        w
    } else {
        pass_of(n, (w - 1) as nat, k)
    }
}

proof fn lemma_pass_of(n: nat, w: nat, k: nat)
    requires
        k < windows_up_to(n, w),
    ensures
        1 <= pass_of(n, w, k) <= w,
        windows_up_to(n, (pass_of(n, w, k) - 1) as nat) <= k < windows_up_to(n, pass_of(n, w, k)),
    decreases w,
{
    if w > 0 && k < windows_up_to(n, (w - 1) as nat) {
        lemma_pass_of(n, (w - 1) as nat, k);
    }
}

} // verus!
