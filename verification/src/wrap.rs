//! Line wrapping: splits one logical line into physical sub-lines, each
//! bounded by a target display width, scanning the characters greedily in
//! order. A character that would push the current sub-line past the target
//! closes that sub-line and starts the next one; a single character wider
//! than the target still gets a sub-line of its own.

use vstd::prelude::*;

use crate::widths::{char_width, str_width, measure_char};
use crate::widths::{lemma_str_width_push, lemma_str_width_singleton};

verus! {

/// One block of text together with its allotted display width in the
/// side-by-side layout.
#[derive(Debug, PartialEq, Eq)]
pub struct Pane {
    /// The logical text lines of the block, in order.
    pub lines: Vec<String>,
    /// The fixed display width the block is reflowed to.
    pub width: usize,
}

impl Clone for Pane {
    fn clone(&self) -> (r: Self)
        ensures
            r.lines.deep_view() == self.lines.deep_view(),
            r.width == self.width,
    {
        let mut lines: Vec<String> = Vec::new();
        let mut i: usize = 0;
        while i < self.lines.len()
            invariant
                i <= self.lines.len(),
                lines@.len() == i,
                forall|j: int| 0 <= j < i ==> lines@[j]@ == self.lines@[j]@,
            decreases self.lines.len() - i,
        {
            lines.push(self.lines[i].clone());
            i = i + 1;
        }
        let r = Pane { lines, width: self.width };
        proof {
            assert(r.lines.deep_view() =~= self.lines.deep_view());
        }
        r
    }
}

/// One logical line after wrapping: its physical sub-lines in order, plus
/// the target width they were wrapped to. Concatenating the sub-lines gives
/// back exactly the original characters; an empty original line has no
/// sub-lines.
#[derive(Debug, PartialEq, Eq)]
pub struct WrappedLine {
    /// The physical sub-lines, in original character order.
    pub subs: Vec<String>,
    /// The display width the line was wrapped to.
    pub width: usize,
}

impl View for WrappedLine {
    type V = Seq<Seq<char>>;

    open spec fn view(&self) -> Seq<Seq<char>> {
        self.subs.deep_view()
    }
}

impl WrappedLine {
    /// An empty wrapped line (zero sub-lines) carrying the given width.
    pub fn new(width: usize) -> (r: WrappedLine)
        ensures
            r@ == Seq::<Seq<char>>::empty(),
            r.width == width,
    {
        let r = WrappedLine { subs: Vec::new(), width };
        proof {
            assert(r@ =~= Seq::<Seq<char>>::empty());
        }
        r
    }
}

impl Clone for WrappedLine {
    fn clone(&self) -> (r: Self)
        ensures
            r@ == self@,
            r.width == self.width,
    {
        let mut subs: Vec<String> = Vec::new();
        let mut i: usize = 0;
        while i < self.subs.len()
            invariant
                i <= self.subs.len(),
                subs@.len() == i,
                forall|j: int| 0 <= j < i ==> subs@[j]@ == self.subs@[j]@,
            decreases self.subs.len() - i,
        {
            subs.push(self.subs[i].clone());
            i = i + 1;
        }
        let r = WrappedLine { subs, width: self.width };
        proof {
            assert(r@ =~= self@);
        }
        r
    }
}

/// The wrapped form of the suffix of `s` from index `i` on, continuing a
/// sub-line already holding `cur`: the next character closes `cur` whenever
/// it would push `cur` past `w` columns, and a non-empty final sub-line is
/// kept.
pub open spec fn wrap_rec(s: Seq<char>, i: int, cur: Seq<char>, w: nat) -> Seq<Seq<char>>
    decreases s.len() - i,
{
    if i < 0 || i >= s.len() {
        if cur.len() == 0 {
            Seq::empty()
        } else {
            seq![cur]
        }
    } else if str_width(cur) + char_width(s[i]) > w {
        seq![cur] + wrap_rec(s, i + 1, seq![s[i]], w)
    } else {
        wrap_rec(s, i + 1, cur.push(s[i]), w)
    }
}

/// The wrapped form of the line `s` under target width `w`.
pub open spec fn wrap_spec(s: Seq<char>, w: nat) -> Seq<Seq<char>> {
    wrap_rec(s, 0, Seq::empty(), w)
}

/// A sub-line is within bounds when it fits in `w` columns, or consists of
/// a single character that alone is wider than `w` columns.
pub open spec fn sub_line_ok(sub: Seq<char>, w: nat) -> bool {
    str_width(sub) <= w || (sub.len() == 1 && char_width(sub[0]) > w)
}

proof fn lemma_wrap_rec_width_bound(s: Seq<char>, i: int, cur: Seq<char>, w: nat)
    requires
        0 <= i <= s.len(),
        sub_line_ok(cur, w),
    ensures
        forall|k: int|
            0 <= k < wrap_rec(s, i, cur, w).len() ==> sub_line_ok(
                #[trigger] wrap_rec(s, i, cur, w)[k],
                w,
            ),
    decreases s.len() - i,
{
    let res = wrap_rec(s, i, cur, w);
    if i >= s.len() {
        if cur.len() != 0 {
            assert(res == seq![cur]);
            assert(forall|k: int| 0 <= k < res.len() ==> res[k] == cur);
        }
    } else {
        let c = s[i];
        if str_width(cur) + char_width(c) > w {
            lemma_str_width_singleton(c);
            lemma_wrap_rec_width_bound(s, i + 1, seq![c], w);
            let rest = wrap_rec(s, i + 1, seq![c], w);
            assert(res == seq![cur] + rest);
            assert forall|k: int| 0 <= k < res.len() implies sub_line_ok(res[k], w) by {
                if k == 0 {
                    assert(res[k] == cur);
                } else {
                    assert(res[k] == rest[k - 1]);
                }
            }
        } else {
            lemma_str_width_push(cur, c);
            lemma_wrap_rec_width_bound(s, i + 1, cur.push(c), w);
            assert(res == wrap_rec(s, i + 1, cur.push(c), w));
        }
    }
}

/// Width-bound law: every sub-line the wrapper produces for target width
/// `w` fits in `w` columns, except that a single character wider than `w`
/// occupies a sub-line of its own whose width exceeds `w`.
pub proof fn lemma_wrap_width_bound(s: Seq<char>, w: nat)
    ensures
        forall|k: int|
            0 <= k < wrap_spec(s, w).len() ==> sub_line_ok(#[trigger] wrap_spec(s, w)[k], w),
{
    lemma_wrap_rec_width_bound(s, 0, Seq::empty(), w);
}

proof fn lemma_wrap_rec_width_fits(s: Seq<char>, i: int, cur: Seq<char>, w: nat)
    requires
        0 <= i <= s.len(),
        str_width(cur) <= w,
        forall|j: int| 0 <= j < s.len() ==> char_width(s[j]) <= w,
    ensures
        forall|k: int|
            0 <= k < wrap_rec(s, i, cur, w).len() ==> str_width(
                #[trigger] wrap_rec(s, i, cur, w)[k],
            ) <= w,
    decreases s.len() - i,
{
    let res = wrap_rec(s, i, cur, w);
    if i >= s.len() {
        if cur.len() != 0 {
            assert(res == seq![cur]);
            assert(forall|k: int| 0 <= k < res.len() ==> res[k] == cur);
        }
    } else {
        let c = s[i];
        if str_width(cur) + char_width(c) > w {
            lemma_str_width_singleton(c);
            lemma_wrap_rec_width_fits(s, i + 1, seq![c], w);
            let rest = wrap_rec(s, i + 1, seq![c], w);
            assert(res == seq![cur] + rest);
            assert forall|k: int| 0 <= k < res.len() implies str_width(res[k]) <= w by {
                if k == 0 {
                    assert(res[k] == cur);
                } else {
                    assert(res[k] == rest[k - 1]);
                }
            }
        } else {
            lemma_str_width_push(cur, c);
            lemma_wrap_rec_width_fits(s, i + 1, cur.push(c), w);
            assert(res == wrap_rec(s, i + 1, cur.push(c), w));
        }
    }
}

/// When every character of the line fits in `w` columns on its own, every
/// sub-line the wrapper produces fits in `w` columns.
pub proof fn lemma_wrap_width_fits(s: Seq<char>, w: nat)
    requires
        forall|j: int| 0 <= j < s.len() ==> char_width(s[j]) <= w,
    ensures
        forall|k: int|
            0 <= k < wrap_spec(s, w).len() ==> str_width(#[trigger] wrap_spec(s, w)[k]) <= w,
{
    lemma_wrap_rec_width_fits(s, 0, Seq::empty(), w);
}

proof fn lemma_wrap_rec_reconstruct(s: Seq<char>, i: int, cur: Seq<char>, w: nat)
    requires
        0 <= i <= s.len(),
    ensures
        wrap_rec(s, i, cur, w).flatten() == cur + s.skip(i),
    decreases s.len() - i,
{
    if i >= s.len() {
        if cur.len() == 0 {
            assert(Seq::<Seq<char>>::empty().flatten() =~= Seq::<char>::empty());
            assert(cur + s.skip(i) =~= Seq::<char>::empty());
        } else {
            seq![cur].lemma_flatten_one_element();
            assert(cur + s.skip(i) =~= cur);
        }
    } else {
        let c = s[i];
        if str_width(cur) + char_width(c) > w {
            lemma_wrap_rec_reconstruct(s, i + 1, seq![c], w);
            let rest = wrap_rec(s, i + 1, seq![c], w);
            vstd::seq_lib::lemma_flatten_concat(seq![cur], rest);
            seq![cur].lemma_flatten_one_element();
            assert(cur + (seq![c] + s.skip(i + 1)) =~= cur + s.skip(i));
        } else {
            lemma_wrap_rec_reconstruct(s, i + 1, cur.push(c), w);
            assert(cur.push(c) + s.skip(i + 1) =~= cur + s.skip(i));
        }
    }
}

/// Reconstruction law: concatenating all sub-lines of a wrapped line, in
/// order, yields exactly the original characters in the original order.
pub proof fn lemma_wrap_reconstruct(s: Seq<char>, w: nat)
    ensures
        wrap_spec(s, w).flatten() == s,
{
    lemma_wrap_rec_reconstruct(s, 0, Seq::empty(), w);
    assert(Seq::<char>::empty() + s.skip(0) =~= s);
}

/// An empty original line yields zero sub-lines.
pub proof fn lemma_wrap_empty_line(w: nat)
    ensures
        wrap_spec(Seq::empty(), w) == Seq::<Seq<char>>::empty(),
{
}

/// Wraps one logical line to the target display width.
pub fn wrap_at(original: &str, width: usize) -> (r: WrappedLine)
    ensures
        r@ == wrap_spec(original@, width as nat),
        r.width == width,
{
    let ghost s = original@;
    let ghost w = width as nat;
    let n = original.unicode_len();
    let mut subs: Vec<String> = Vec::new();
    let mut current = String::new();
    let mut current_width: usize = 0;
    let mut i: usize = 0;

    proof {
        assert(subs.deep_view() =~= Seq::<Seq<char>>::empty());
        assert(Seq::<Seq<char>>::empty() + wrap_spec(s, w) =~= wrap_spec(s, w));
    }

    while i < n
        invariant
            i <= n,
            n == s.len(),
            s == original@,
            w == width as nat,
            current_width as nat == str_width(current@),
            subs.deep_view() + wrap_rec(s, i as int, current@, w) == wrap_spec(s, w),
        decreases n - i,
    {
        let c = original.get_char(i);
        let cw = measure_char(c);
        let ghost subs_before = subs.deep_view();
        let ghost cur_before = current@;
        if current_width > width || cw > width - current_width {
            assert(str_width(cur_before) + char_width(c) > w);
            subs.push(current);
            current = String::new();
            current.push(c);
            current_width = cw;
            proof {
                assert(current@ =~= seq![c]);
                lemma_str_width_singleton(c);
                assert(subs.deep_view() =~= subs_before.push(cur_before));
                assert(wrap_rec(s, i as int, cur_before, w) == seq![cur_before] + wrap_rec(
                    s,
                    i + 1,
                    seq![c],
                    w,
                ));
                assert(subs_before.push(cur_before) + wrap_rec(s, i + 1, seq![c], w)
                    =~= subs_before + (seq![cur_before] + wrap_rec(s, i + 1, seq![c], w)));
            }
        } else {
            assert(str_width(cur_before) + char_width(c) <= w);
            current.push(c);
            current_width = current_width + cw;
            proof {
                lemma_str_width_push(cur_before, c);
                assert(wrap_rec(s, i as int, cur_before, w) == wrap_rec(
                    s,
                    i + 1,
                    cur_before.push(c),
                    w,
                ));
            }
        }
        i = i + 1;
    }

    let ghost subs_end = subs.deep_view();
    let ghost cur_end = current@;
    if !current.as_str().is_empty() {
        subs.push(current);
        proof {
            assert(subs.deep_view() =~= subs_end.push(cur_end));
            assert(wrap_rec(s, n as int, cur_end, w) == seq![cur_end]);
            assert(subs_end.push(cur_end) =~= subs_end + seq![cur_end]);
        }
    } else {
        proof {
            assert(wrap_rec(s, n as int, cur_end, w) =~= Seq::<Seq<char>>::empty());
            assert(subs_end + Seq::<Seq<char>>::empty() =~= subs_end);
        }
    }

    let r = WrappedLine { subs, width };
    r
}

/// The wrapped lines of a pane: one per original line, in order, all under
/// the pane's own width.
#[derive(Debug)]
pub struct WrappedPane {
    /// One wrapped line per original line of the pane.
    pub lines: Vec<WrappedLine>,
    /// The pane's fixed display width.
    pub width: usize,
}

impl WrappedPane {
    /// Every wrapped line of the pane carries the pane's width.
    pub open spec fn wf(&self) -> bool {
        forall|i: int| 0 <= i < self.lines@.len() ==> (#[trigger] self.lines@[i]).width
            == self.width
    }
}

/// Wraps every line of a pane to the pane's width, preserving line order.
pub fn wrap_pane(pane: Pane) -> (r: WrappedPane)
    ensures
        r.width == pane.width,
        r.wf(),
        r.lines@.len() == pane.lines@.len(),
        forall|i: int| 0 <= i < pane.lines@.len() ==> (#[trigger] r.lines@[i])@ == wrap_spec(
            pane.lines@[i]@,
            pane.width as nat,
        ),
{
    let width = pane.width;
    let mut lines: Vec<WrappedLine> = Vec::new();
    let mut i: usize = 0;
    while i < pane.lines.len()
        invariant
            i <= pane.lines@.len(),
            width == pane.width,
            lines@.len() == i,
            forall|j: int| 0 <= j < i ==> (#[trigger] lines@[j]).width == width,
            forall|j: int| 0 <= j < i ==> (#[trigger] lines@[j])@ == wrap_spec(
                pane.lines@[j]@,
                width as nat,
            ),
        decreases pane.lines@.len() - i,
    {
        let wl = wrap_at(pane.lines[i].as_str(), width);
        lines.push(wl);
        i = i + 1;
    }
    WrappedPane { lines, width }
}

} // verus!

