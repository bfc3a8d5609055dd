//! The hypercube [w]^v: vertices, validity and layers.
use vstd::prelude::*;

verus! {

/// `b` raised to the power `e`.
pub open spec fn power(b: int, e: nat) -> int
    decreases e,
{
    if e == 0 {
        1
    } else {
        b * power(b, (e - 1) as nat)
    }
}

/// Sum of the components of `s`.
pub open spec fn coord_sum(s: Seq<usize>) -> int
    decreases s.len(),
{
    if s.len() == 0 {
        0
    } else {
        s[0] + coord_sum(s.drop_first())
    }
}

/// Distance to the sink: the sum of `w - s[i]`.
pub open spec fn comp_sum(w: int, s: Seq<usize>) -> int
    decreases s.len(),
{
    if s.len() == 0 {
        0
    } else {
        (w - s[0]) + comp_sum(w, s.drop_first())
    }
}

/// Every component lies in the alphabet {1, ..., w}.
pub open spec fn in_alphabet(w: int, s: Seq<usize>) -> bool {
    forall|i: int| 0 <= i < s.len() ==> 1 <= #[trigger] s[i] <= w
}

/// `s` is a vertex of [w]^v.
pub open spec fn is_vertex(w: int, v: int, s: Seq<usize>) -> bool {
    s.len() == v && in_alphabet(w, s)
}

/// The layer of a vertex of [w]^v: `v * w - sum`.
pub open spec fn layer_of(w: int, s: Seq<usize>) -> int {
    s.len() * w - coord_sum(s)
}

/// Component-wise order of two sequences of the same length.
pub open spec fn dominated(a: Seq<usize>, b: Seq<usize>) -> bool {
    a.len() == b.len() && forall|i: int| 0 <= i < a.len() ==> a[i] <= b[i]
}

pub proof fn lemma_comp_sum_bounds(w: int, s: Seq<usize>)
    requires
        in_alphabet(w, s),
    ensures
        comp_sum(w, s) == s.len() * w - coord_sum(s),
        0 <= comp_sum(w, s) <= s.len() * (w - 1),
        s.len() <= coord_sum(s) <= s.len() * w,
    decreases s.len(),
{
    if s.len() > 0 {
        assert(in_alphabet(w, s.drop_first()));
        lemma_comp_sum_bounds(w, s.drop_first());
        assert(s.len() * w == w + (s.len() - 1) * w) by (nonlinear_arith);
        assert(s.len() * (w - 1) == (w - 1) + (s.len() - 1) * (w - 1)) by (nonlinear_arith);
        assert(1 <= s[0] <= w);
    }
}

/// The hypercube [w]^v.
#[derive(Debug, Clone)]
pub struct Hypercube {
    /// Alphabet size: the alphabet is {1, ..., w}.
    pub w: usize,
    /// Dimension.
    pub v: usize,
}

/// A point of a hypercube, given by its components.
#[derive(Debug, Clone, PartialEq, Eq)]
pub struct Vertex {
    pub components: Vec<usize>,
}

impl View for Vertex {
    type V = Seq<usize>;

    open spec fn view(&self) -> Seq<usize> {
        self.components@
    }
}

impl Hypercube {
    pub open spec fn wf(&self) -> bool {
        self.w > 0 && self.v > 0
    }

    /// The hypercube [w]^v; both sizes must be positive.
    pub fn new(w: usize, v: usize) -> (r: Self)
        requires
            w > 0,
            v > 0,
        ensures
            r.w == w,
            r.v == v,
            r.wf(),
    {
        Hypercube { w, v }
    }

    pub fn alphabet_size(&self) -> (r: usize)
        ensures
            r == self.w,
    {
        self.w
    }

    pub fn dimension(&self) -> (r: usize)
        ensures
            r == self.v,
    {
        self.v
    }

    /// The number of vertices, w^v.
    pub fn total_vertices(&self) -> (r: usize)
        requires
            self.wf(),
            power(self.w as int, self.v as nat) <= usize::MAX,
        ensures
            r == power(self.w as int, self.v as nat),
    {
        let mut r: usize = 1;
        let mut i: usize = 0;
        while i < self.v
            invariant
                i <= self.v,
                r == power(self.w as int, i as nat),
                power(self.w as int, self.v as nat) <= usize::MAX,
                self.wf(),
            decreases self.v - i,
        {
            proof {
                lemma_power_monotone(self.w as int, (i + 1) as nat, self.v as nat);
                assert(power(self.w as int, (i + 1) as nat) == self.w * power(self.w as int, i as nat));
                assert(r * self.w == self.w * r) by (nonlinear_arith);
            }
            r = r * self.w;
            i = i + 1;
        }
        r
    }

    /// Whether `vertex` has dimension v and every component in {1, ..., w}.
    pub fn is_valid_vertex(&self, vertex: &Vertex) -> (r: bool)
        ensures
            r == is_vertex(self.w as int, self.v as int, vertex@),
    {
        if vertex.components.len() != self.v {
            return false;
        }
        let mut i: usize = 0;
        while i < vertex.components.len()
            invariant
                i <= vertex@.len(),
                forall|j: int| 0 <= j < i ==> 1 <= #[trigger] vertex@[j] <= self.w,
            decreases vertex@.len() - i,
        {
            let x = vertex.components[i];
            if x < 1 || x > self.w {
                return false;
            }
            i = i + 1;
        }
        true
    }

    /// The sink (w, w, ..., w), the single vertex of layer 0.
    pub fn sink_vertex(&self) -> (r: Vertex)
        requires
            self.wf(),
        ensures
            is_vertex(self.w as int, self.v as int, r@),
            forall|i: int| 0 <= i < r@.len() ==> #[trigger] r@[i] == self.w,
    {
        let mut c: Vec<usize> = Vec::new();
        let mut i: usize = 0;
        while i < self.v
            invariant
                i <= self.v,
                c@.len() == i,
                self.wf(),
                forall|j: int| 0 <= j < i ==> #[trigger] c@[j] == self.w,
            decreases self.v - i,
        {
            c.push(self.w);
            i = i + 1;
        }
        Vertex { components: c }
    }

    /// The layer d = vw - Σ x_i of a vertex of this hypercube.
    pub fn calculate_layer(&self, vertex: &Vertex) -> (r: usize)
        requires
            is_vertex(self.w as int, self.v as int, vertex@),
            self.v * self.w <= usize::MAX,
        ensures
            r == layer_of(self.w as int, vertex@),
            r == comp_sum(self.w as int, vertex@),
    {
        distance_to_sink(vertex.components.as_slice(), self.w)
    }

    /// Σ (w - x_i): the number of unit steps from `vertex` to the sink.
    pub fn distance_from_sink(&self, vertex: &Vertex) -> (r: usize)
        requires
            in_alphabet(self.w as int, vertex@),
            vertex@.len() * self.w <= usize::MAX,
        ensures
            r == comp_sum(self.w as int, vertex@),
    {
        distance_to_sink(vertex.components.as_slice(), self.w)
    }
}

/// 2^31, 2^32 and 2^64.
pub proof fn lemma_power2_values()
    ensures
        power(2, 31) == 0x8000_0000,
        power(2, 32) == 0x1_0000_0000,
        power(2, 64) == 0x1_0000_0000_0000_0000,
{
    reveal_with_fuel(power, 65);
}

pub proof fn lemma_power_monotone(b: int, e1: nat, e2: nat)
    requires
        b >= 1,
        e1 <= e2,
    ensures
        1 <= power(b, e1) <= power(b, e2),
    decreases e2,
{
    if e2 > 0 {
        if e1 < e2 {
            lemma_power_monotone(b, e1, (e2 - 1) as nat);
            assert(power(b, (e2 - 1) as nat) <= b * power(b, (e2 - 1) as nat)) by (nonlinear_arith)
                requires
                    b >= 1,
                    power(b, (e2 - 1) as nat) >= 1,
            ;
        } else {
            lemma_power_monotone(b, 0, (e2 - 1) as nat);
            assert(1 <= b * power(b, (e2 - 1) as nat)) by (nonlinear_arith)
                requires
                    b >= 1,
                    power(b, (e2 - 1) as nat) >= 1,
            ;
        }
    }
}

/// Σ (w - s[i]) for a sequence whose components all lie in {1, ..., w}.
pub fn distance_to_sink(s: &[usize], w: usize) -> (r: usize)
    requires
        in_alphabet(w as int, s@),
        s@.len() * w <= usize::MAX,
    ensures
        r == comp_sum(w as int, s@),
        r == layer_of(w as int, s@),
{
    proof {
        lemma_comp_sum_bounds(w as int, s@);
    }
    let n = s.len();
    let mut acc: usize = 0;
    let mut i: usize = n;
    while i > 0
        invariant
            i <= n,
            n == s@.len(),
            in_alphabet(w as int, s@),
            n * w <= usize::MAX,
            acc == comp_sum(w as int, s@.subrange(i as int, n as int)),
            acc <= (n - i) * w,
        decreases i,
    {
        let ghost tail = s@.subrange(i as int, n as int);
        assert(s@.subrange(i - 1, n as int).drop_first() =~= tail);
        assert((n - (i - 1)) * w == (n - i) * w + w) by (nonlinear_arith);
        assert((n - (i - 1)) * w <= n * w) by (nonlinear_arith)
            requires
                i >= 1,
        ;
        acc = acc + (w - s[i - 1]);
        i = i - 1;
    }
    assert(s@.subrange(0, n as int) =~= s@);
    acc
}

impl Vertex {
    pub fn new(components: Vec<usize>) -> (r: Self)
        ensures
            r@ == components@,
    {
        Vertex { components }
    }

    pub fn dimension(&self) -> (r: usize)
        ensures
            r == self@.len(),
    {
        self.components.len()
    }

    pub fn components(&self) -> (r: &Vec<usize>)
        ensures
            r@ == self@,
    {
        &self.components
    }

    /// Component-wise `<=`; vertices of different dimensions are incomparable.
    pub fn le(&self, other: &Self) -> (r: bool)
        ensures
            r == dominated(self@, other@),
    {
        if self.components.len() != other.components.len() {
            return false;
        }
        let mut i: usize = 0;
        while i < self.components.len()
            invariant
                i <= self@.len(),
                self@.len() == other@.len(),
                forall|j: int| 0 <= j < i ==> self@[j] <= other@[j],
            decreases self@.len() - i,
        {
            if self.components[i] > other.components[i] {
                return false;
            }
            i = i + 1;
        }
        true
    }
}

} // verus!
