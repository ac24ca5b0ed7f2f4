use vstd::prelude::*;
use vstd::arithmetic::power::pow;
use crate::curve::{CurvePoint, FieldElem, Fp, ed_add_point, fp_bit, fp_bits_seq,
    lemma_ed_add_comm, lemma_ed_add_zero_right};

verus! {

/// Window width in bits of the fixed-base lookup tables.
pub const WINDOW_SIZE: usize = 3;

/// Entries per lookup table.
pub const WINDOW_ELEMS: usize = 8;

/// Number of windows covering a 250-bit scalar.
pub const WINDOWS: usize = 84;

/// Little-endian bits of a byte string, lowest bit of the lowest byte
/// first.
pub fn scalar_to_bits(bytes: &Vec<u8>) -> (r: Vec<bool>)
    ensures
        r@.len() == 8 * bytes@.len(),
        forall|j: int| 0 <= j < r@.len()
            ==> r@[j] == ((bytes@[j / 8] >> ((j % 8) as u8)) & 1 == 1),
{
    let mut out: Vec<bool> = Vec::new();
    let mut i: usize = 0;
    while i < bytes.len()
        invariant
            0 <= i <= bytes.len(),
            out@.len() == 8 * i,
            forall|j: int| 0 <= j < out@.len()
                ==> out@[j] == ((bytes@[j / 8] >> ((j % 8) as u8)) & 1 == 1),
        decreases bytes.len() - i,
    {
        let b = bytes[i];
        let mut k: usize = 0;
        while k < 8
            invariant
                0 <= k <= 8,
                b == bytes@[i as int],
                0 <= i < bytes@.len(),
                out@.len() == 8 * i + k,
                forall|j: int| 0 <= j < out@.len()
                    ==> out@[j] == ((bytes@[j / 8] >> ((j % 8) as u8)) & 1 == 1),
            decreases 8 - k,
        {
            let bit = (b >> (k as u8)) & 1 == 1;
            out.push(bit);
            proof {
                assert((8 * i + k) / 8 == i as int);
                assert((8 * i + k) % 8 == k as int);
            }
            k = k + 1;
        }
        i = i + 1;
    }
    out
}

/// The witness of one window: the looked-up point together with the three
/// selection bits.
pub struct WindowWitness {
    pub lookup: CurvePoint,
    pub b0: bool,
    pub b1: bool,
    pub b2: bool,
}

impl WindowWitness {
    pub fn output(&self) -> (r: CurvePoint)
        requires
            self.lookup.cwf(),
        ensures
            r.cwf(),
            r.x.fv() == self.lookup.x.fv(),
            r.y.fv() == self.lookup.y.fv(),
    {
        self.lookup.clone()
    }

    pub fn bits(&self) -> (r: (bool, bool, bool))
        ensures
            r == (self.b0, self.b1, self.b2),
    {
        (self.b0, self.b1, self.b2)
    }
}

/// An eight-entry lookup table of multiples of a window base point, split
/// into the two coordinate columns as the circuit consumes them.
pub struct EdwardsWindow {
    pub u: Vec<FieldElem>,
    pub v: Vec<FieldElem>,
}

/// One table entry as a coordinate pair.
pub open spec fn win_pair(w: EdwardsWindow, j: int) -> (int, int) {
    (w.u@[j].fv(), w.v@[j].fv())
}

/// The intended table of a window base: entry zero is the neutral point,
/// entry one the base itself, and each further entry adds the base once
/// more.
pub open spec fn win_entry(b: (int, int), i: int) -> (int, int)
    decreases i,
{
    if i <= 0 {
        (0int, 1int)
    } else if i == 1 {
        b
    } else {
        let p = win_entry(b, i - 1);
        ed_add_point(p.0, p.1, b.0, b.1)
    }
}

/// The table index selected by three bits.
pub open spec fn window_index(b0: bool, b1: bool, b2: bool) -> int {
    (if b0 { 1int } else { 0 }) + 2 * (if b1 { 1int } else { 0 }) + 4 * (if b2 { 1int } else { 0 })
}

impl EdwardsWindow {
    pub open spec fn wwf(&self) -> bool {
        self.u@.len() == 8 && self.v@.len() == 8
            && (forall|i: int| 0 <= i < 8 ==> (#[trigger] self.u@[i]).fwf())
            && (forall|i: int| 0 <= i < 8 ==> (#[trigger] self.v@[i]).fwf())
    }

    /// Builds the table of the first eight multiples of the base point:
    /// every entry is pinned to the iterated addition of the base.
    pub fn new(p1: &CurvePoint) -> (r: EdwardsWindow)
        requires
            p1.cwf(),
        ensures
            r.wwf(),
            forall|j: int| 0 <= j < 8
                ==> #[trigger] win_pair(r, j) == win_entry((p1.x.fv(), p1.y.fv()), j),
    {
        let p0 = CurvePoint::zero();
        let p2 = p1.add(p1);
        let p3 = p2.add(p1);
        let p4 = p3.add(p1);
        let p5 = p4.add(p1);
        let p6 = p5.add(p1);
        let p7 = p6.add(p1);
        let mut u: Vec<FieldElem> = Vec::new();
        let mut v: Vec<FieldElem> = Vec::new();
        u.push(p0.x); v.push(p0.y);
        u.push(p1.x.clone()); v.push(p1.y.clone());
        u.push(p2.x); v.push(p2.y);
        u.push(p3.x); v.push(p3.y);
        u.push(p4.x); v.push(p4.y);
        u.push(p5.x); v.push(p5.y);
        u.push(p6.x); v.push(p6.y);
        u.push(p7.x); v.push(p7.y);
        let r = EdwardsWindow { u, v };
        proof {
            let b = (p1.x.fv(), p1.y.fv());
            assert(win_entry(b, 0) == (0int, 1int));
            assert(win_entry(b, 1) == b);
            assert(win_entry(b, 2) == ed_add_point(b.0, b.1, b.0, b.1));
            assert(win_entry(b, 3) == ed_add_point(
                win_entry(b, 2).0, win_entry(b, 2).1, b.0, b.1));
            assert(win_entry(b, 4) == ed_add_point(
                win_entry(b, 3).0, win_entry(b, 3).1, b.0, b.1));
            assert(win_entry(b, 5) == ed_add_point(
                win_entry(b, 4).0, win_entry(b, 4).1, b.0, b.1));
            assert(win_entry(b, 6) == ed_add_point(
                win_entry(b, 5).0, win_entry(b, 5).1, b.0, b.1));
            assert(win_entry(b, 7) == ed_add_point(
                win_entry(b, 6).0, win_entry(b, 6).1, b.0, b.1));
            assert forall|j: int| 0 <= j < 8
                implies #[trigger] win_pair(r, j) == win_entry(b, j) by {
            }
        }
        r
    }

    /// Selects the table entry named by the three bits.
    pub fn lookup(&self, b0: bool, b1: bool, b2: bool) -> (r: CurvePoint)
        requires
            self.wwf(),
        ensures
            r.cwf(),
            (r.x.fv(), r.y.fv()) == win_pair(*self, window_index(b0, b1, b2)),
    {
        let i0: usize = if b0 { 1 } else { 0 };
        let i1: usize = if b1 { 1 } else { 0 };
        let i2: usize = if b2 { 1 } else { 0 };
        let i = i0 + i1 * 2 + i2 * 4;
        CurvePoint { x: self.u[i].clone(), y: self.v[i].clone() }
    }

    /// Records the looked-up point together with the bits that chose it.
    pub fn witness(&self, b0: bool, b1: bool, b2: bool) -> (r: WindowWitness)
        requires
            self.wwf(),
        ensures
            r.lookup.cwf(),
            (r.lookup.x.fv(), r.lookup.y.fv()) == win_pair(*self, window_index(b0, b1, b2)),
            r.b0 == b0 && r.b1 == b1 && r.b2 == b2,
    {
        WindowWitness { lookup: self.lookup(b0, b1, b2), b0, b1, b2 }
    }
}

/// The left factor of the selection constraint, as a polynomial in the
/// bit variables over one coordinate column.
pub open spec fn sel_left(u: Seq<int>, sa: int, s0: int, s1: int, s2: int) -> int {
    -(u[0] * sa) + u[0] * s2 + u[0] * s1 - u[0] + u[2] * sa
        - u[2] * s1 + u[4] * sa - u[4] * s2 - u[6] * sa
        + u[1] * sa - u[1] * s2 - u[1] * s1 + u[1] - u[3] * sa
        + u[3] * s1 - u[5] * sa + u[5] * s2 + u[7] * sa
}

/// The right side of the selection constraint, with the candidate entry.
pub open spec fn sel_right(u: Seq<int>, e: int, sa: int, s0: int, s1: int, s2: int) -> int {
    e - u[0] * sa + u[0] * s2 + u[0] * s1 - u[0] + u[2] * sa
        - u[2] * s1 + u[4] * sa - u[4] * s2 - u[6] * sa
}

pub open spec fn bit_int(b: bool) -> int {
    if b { 1 } else { 0 }
}

/// The selection identity of the lookup gadget: with the three selection
/// wires holding bits and the auxiliary wire holding their product, the
/// constraint equation holds exactly when the candidate entry equals the
/// table entry at the index the bits name. Selection is a polynomial
/// identity, not a branch.
pub proof fn lemma_window_selector(u: Seq<int>, e: int, b0: bool, b1: bool, b2: bool)
    requires
        u.len() == 8,
    ensures
        (bit_int(b0) * sel_left(u, bit_int(b1) * bit_int(b2), bit_int(b0), bit_int(b1), bit_int(b2))
            == sel_right(u, e, bit_int(b1) * bit_int(b2), bit_int(b0), bit_int(b1), bit_int(b2)))
            <==> e == u[window_index(b0, b1, b2)],
{
    let s0 = bit_int(b0);
    let s1 = bit_int(b1);
    let s2 = bit_int(b2);
    let sa = s1 * s2;
    assert(sa == bit_int(b1 && b2));
    let f = sel_left(u, sa, s0, s1, s2);
    assert(s0 * f == if b0 { f } else { 0 }) by {
        vstd::arithmetic::mul::lemma_mul_basics(f);
    }
    assert forall|i: int| 0 <= i < 8 implies #[trigger] (u[i] * 0) == 0 && u[i] * 1 == u[i] by {
        vstd::arithmetic::mul::lemma_mul_basics(u[i]);
    }
}

/// The witness of one chained point addition.
pub struct AdditionWitness {
    pub in1: CurvePoint,
    pub in2: CurvePoint,
    pub out: CurvePoint,
}

impl AdditionWitness {
    /// Records an addition: the two inputs and their Edwards sum.
    pub fn witness(in1: CurvePoint, in2: CurvePoint) -> (r: AdditionWitness)
        requires
            in1.cwf(),
            in2.cwf(),
        ensures
            r.in1.cwf() && r.in2.cwf() && r.out.cwf(),
            (r.in1.x.fv(), r.in1.y.fv()) == (in1.x.fv(), in1.y.fv()),
            (r.in2.x.fv(), r.in2.y.fv()) == (in2.x.fv(), in2.y.fv()),
            (r.out.x.fv(), r.out.y.fv())
                == ed_add_point(in1.x.fv(), in1.y.fv(), in2.x.fv(), in2.y.fv()),
    {
        let out = in1.add(&in2);
        AdditionWitness { in1, in2, out }
    }

    pub fn output(&self) -> (r: CurvePoint)
        requires
            self.out.cwf(),
        ensures
            r.cwf(),
            r.x.fv() == self.out.x.fv(),
            r.y.fv() == self.out.y.fv(),
    {
        self.out.clone()
    }
}

/// The witness of a whole fixed-base exponentiation: one lookup per
/// window and the chain of additions combining them.
pub struct FixExpWitness {
    pub windows: Vec<WindowWitness>,
    pub additions: Vec<AdditionWitness>,
}

/// The fixed-base exponentiation gadget: a table per 3-bit window of the
/// scalar, each over the base point shifted past the previous windows.
pub struct FixExpGadget {
    pub windows: Vec<EdwardsWindow>,
}

/// The base point of window `i`: each window's base skips the seven
/// multiples the previous window can contribute, and one more.
pub open spec fn window_base(b0: (int, int), i: int) -> (int, int)
    decreases i,
{
    if i <= 0 {
        b0
    } else {
        let b = window_base(b0, i - 1);
        let top = win_entry(b, 7);
        ed_add_point(b.0, b.1, top.0, top.1)
    }
}

/// One bit of the scalar as the windows consume it: zero past the
/// scalar's width.
pub open spec fn scalar_bit(v: int, j: int) -> bool {
    0 <= j < 250 && fp_bit(v, j)
}

/// The table entry window `i` contributes for scalar value `v`.
pub open spec fn gadget_entry(g: FixExpGadget, i: int, v: int) -> (int, int) {
    win_pair(g.windows@[i],
        window_index(scalar_bit(v, 3 * i), scalar_bit(v, 3 * i + 1), scalar_bit(v, 3 * i + 2)))
}

/// The fixed-base fold: each window's looked-up entry is added onto the
/// running point, lowest window first.
pub open spec fn fix_point_state(g: FixExpGadget, v: int, i: int) -> (int, int)
    decreases i,
{
    if i <= 0 {
        (0int, 1int)
    } else {
        let prev = fix_point_state(g, v, i - 1);
        let e = gadget_entry(g, i - 1, v);
        ed_add_point(e.0, e.1, prev.0, prev.1)
    }
}

impl FixExpGadget {
    pub open spec fn gwf(&self) -> bool {
        self.windows@.len() == WINDOWS
            && forall|i: int| 0 <= i < self.windows@.len()
                ==> (#[trigger] self.windows@[i]).wwf()
    }

    /// Builds the window tables: each window's base is the running point,
    /// and the next base skips the seven multiples the window can add.
    /// Every table is pinned to the iterated multiples of its window base.
    pub fn new(base: &CurvePoint) -> (r: FixExpGadget)
        requires
            base.cwf(),
        ensures
            r.gwf(),
            forall|i: int, j: int| 0 <= i < WINDOWS && 0 <= j < 8
                ==> #[trigger] win_pair(r.windows@[i], j)
                    == win_entry(window_base((base.x.fv(), base.y.fv()), i), j),
    {
        let ghost b0 = (base.x.fv(), base.y.fv());
        let mut current = base.clone();
        let mut windows: Vec<EdwardsWindow> = Vec::new();
        let mut i: usize = 0;
        while i < WINDOWS
            invariant
                0 <= i <= WINDOWS,
                current.cwf(),
                (current.x.fv(), current.y.fv()) == window_base(b0, i as int),
                windows@.len() == i,
                forall|k: int| 0 <= k < windows@.len()
                    ==> (#[trigger] windows@[k]).wwf(),
                forall|k: int, j: int| 0 <= k < windows@.len() && 0 <= j < 8
                    ==> #[trigger] win_pair(windows@[k], j)
                        == win_entry(window_base(b0, k), j),
            decreases WINDOWS - i,
        {
            let win = EdwardsWindow::new(&current);
            let step = win.lookup(true, true, true);
            proof {
                assert(window_index(true, true, true) == 7);
                assert((step.x.fv(), step.y.fv())
                    == win_entry(window_base(b0, i as int), 7));
            }
            current = current.add(&step);
            windows.push(win);
            i = i + 1;
        }
        FixExpGadget { windows }
    }

    /// Computes the fixed-base exponentiation outside the circuit: look up
    /// each window by three scalar bits and sum the results. The result is
    /// the fold of the table entries at the scalar's bits.
    pub fn compute(&self, scalar: &Fp) -> (r: CurvePoint)
        requires
            self.gwf(),
            scalar.pwf(),
        ensures
            r.cwf(),
            (r.x.fv(), r.y.fv()) == fix_point_state(*self, scalar.pv(), WINDOWS as int),
    {
        let bs = scalar.bits();
        let mut point = CurvePoint::zero();
        let mut i: usize = 0;
        while i < WINDOWS
            invariant
                0 <= i <= WINDOWS,
                self.gwf(),
                bs@.len() == 250,
                bs@ == fp_bits_seq(scalar.pv()),
                point.cwf(),
                (point.x.fv(), point.y.fv()) == fix_point_state(*self, scalar.pv(), i as int),
            decreases WINDOWS - i,
        {
            let b0 = if 3 * i < 250 { bs[3 * i] } else { false };
            let b1 = if 3 * i + 1 < 250 { bs[3 * i + 1] } else { false };
            let b2 = if 3 * i + 2 < 250 { bs[3 * i + 2] } else { false };
            proof {
                assert(b0 == scalar_bit(scalar.pv(), 3 * i));
                assert(b1 == scalar_bit(scalar.pv(), 3 * i + 1));
                assert(b2 == scalar_bit(scalar.pv(), 3 * i + 2));
            }
            let looked = self.windows[i].lookup(b0, b1, b2);
            point = looked.add(&point);
            i = i + 1;
        }
        point
    }

    /// Computes the full witness: the per-window lookups and the addition
    /// chain. The recorded chain reproduces exactly the point that
    /// `compute` returns on the same scalar: the two code paths agree.
    pub fn witness(&self, scalar: &Fp) -> (r: (FixExpWitness, CurvePoint))
        requires
            self.gwf(),
            scalar.pwf(),
        ensures
            r.1.cwf(),
            r.0.windows@.len() == WINDOWS,
            r.0.additions@.len() == WINDOWS - 1,
            (r.1.x.fv(), r.1.y.fv()) == fix_point_state(*self, scalar.pv(), WINDOWS as int),
    {
        let bs = scalar.bits();
        let mut point = CurvePoint::zero();
        let mut windows: Vec<WindowWitness> = Vec::new();
        let mut additions: Vec<AdditionWitness> = Vec::new();
        let mut i: usize = 0;
        while i < WINDOWS
            invariant
                0 <= i <= WINDOWS,
                self.gwf(),
                scalar.pwf(),
                bs@.len() == 250,
                bs@ == fp_bits_seq(scalar.pv()),
                point.cwf(),
                i > 0 ==> (point.x.fv(), point.y.fv())
                    == fix_point_state(*self, scalar.pv(), i as int),
                windows@.len() == i,
                additions@.len() == if i == 0 { 0int } else { i - 1 },
            decreases WINDOWS - i,
        {
            let b0 = if 3 * i < 250 { bs[3 * i] } else { false };
            let b1 = if 3 * i + 1 < 250 { bs[3 * i + 1] } else { false };
            let b2 = if 3 * i + 2 < 250 { bs[3 * i + 2] } else { false };
            proof {
                assert(b0 == scalar_bit(scalar.pv(), 3 * i));
                assert(b1 == scalar_bit(scalar.pv(), 3 * i + 1));
                assert(b2 == scalar_bit(scalar.pv(), 3 * i + 2));
            }
            let win = self.windows[i].witness(b0, b1, b2);
            if i == 0 {
                point = win.output();
                proof {
                    // the first window's entry, folded onto the neutral point
                    let v = scalar.pv();
                    let e = gadget_entry(*self, 0, v);
                    assert((point.x.fv(), point.y.fv()) == e);
                    lemma_ed_add_zero_right(e.0, e.1);
                    assert(fix_point_state(*self, v, 0) == (0int, 1int));
                    assert(fix_point_state(*self, v, 1)
                        == ed_add_point(e.0, e.1, 0, 1));
                }
            } else {
                let add = AdditionWitness::witness(point, win.output());
                proof {
                    // the chain adds in the opposite order; the law is
                    // symmetric
                    let v = scalar.pv();
                    let e = gadget_entry(*self, i as int, v);
                    assert((add.in2.x.fv(), add.in2.y.fv()) == e);
                    lemma_ed_add_comm(point.x.fv(), point.y.fv(), e.0, e.1);
                    assert(fix_point_state(*self, v, i + 1)
                        == ed_add_point(e.0, e.1, point.x.fv(), point.y.fv()));
                }
                point = add.output();
                additions.push(add);
            }
            windows.push(win);
            i = i + 1;
        }
        (FixExpWitness { windows, additions }, point)
    }
}

/// The statement of the discrete-log relation that the circuit proves: a
/// public key is the first base raised to the secret scalar, and the tag
/// is the second base raised to the same scalar.
pub struct Statement {
    pub g_exp: FixExpGadget,
    pub h_exp: FixExpGadget,
}

impl Statement {
    pub open spec fn swf(&self) -> bool {
        self.g_exp.gwf() && self.h_exp.gwf()
    }

    pub fn new(g: &CurvePoint, h: &CurvePoint) -> (r: Statement)
        requires
            g.cwf(),
            h.cwf(),
        ensures
            r.swf(),
            forall|i: int, j: int| 0 <= i < WINDOWS && 0 <= j < 8
                ==> #[trigger] win_pair(r.g_exp.windows@[i], j)
                    == win_entry(window_base((g.x.fv(), g.y.fv()), i), j),
            forall|i: int, j: int| 0 <= i < WINDOWS && 0 <= j < 8
                ==> #[trigger] win_pair(r.h_exp.windows@[i], j)
                    == win_entry(window_base((h.x.fv(), h.y.fv()), i), j),
    {
        Statement { g_exp: FixExpGadget::new(g), h_exp: FixExpGadget::new(h) }
    }

    /// The linkability tag of a secret scalar: the second base raised to
    /// it, computed through the same windowed tables the circuit uses.
    pub fn tag_of(&self, sk: &Fp) -> (r: CurvePoint)
        requires
            self.swf(),
            sk.pwf(),
        ensures
            r.cwf(),
            (r.x.fv(), r.y.fv()) == fix_point_state(self.h_exp, sk.pv(), WINDOWS as int),
    {
        self.h_exp.compute(sk)
    }

    /// The public key recomputed through the windowed tables.
    pub fn pk_of(&self, sk: &Fp) -> (r: CurvePoint)
        requires
            self.swf(),
            sk.pwf(),
        ensures
            r.cwf(),
            (r.x.fv(), r.y.fv()) == fix_point_state(self.g_exp, sk.pv(), WINDOWS as int),
    {
        self.g_exp.compute(sk)
    }
}

} // verus!
