//! Tabular Q-learning over an observation discretised by its largest component.
use vstd::prelude::*;
use crate::chance::random_below;
use crate::qtable::{matrix_cells, matrix_shape, QMatrix};
use vstd::arithmetic::power::pow;

verus! {

/// Fixed-point scale of rewards and Q-values: a reward of -1.0 is `-REWARD_SCALE`.
pub const REWARD_SCALE: i64 = 1000000;

/// Every Q-value stays within this bound in absolute value.
pub const Q_BOUND: i64 = 100000000;

/// Scale of the exploration rate: an epsilon of 1.0 is `EPSILON_SCALE`.
pub const EPSILON_SCALE: u64 = 1000000000000;

/// Learning rate, discount and decay are given in thousandths.
pub const PER_MILLE: u64 = 1000;

/// Division rounding towards zero, as integer division does in executable code.
pub open spec fn trunc_div(a: int, d: int) -> int {
    if a >= 0 { a / d } else { -((-a) / d) }
}

/// Index of the first largest entry of a non-empty sequence.
pub open spec fn is_first_max(s: Seq<u64>, i: int) -> bool {
    &&& 0 <= i < s.len()
    &&& forall|j: int| 0 <= j < s.len() ==> s[j] <= s[i]
    &&& forall|j: int| 0 <= j < i ==> s[j] < s[i]
}

/// The Q-value after one update with this reward and best next value.
pub open spec fn updated_q(q: int, reward: int, max_next: int, learning_rate: int, discount: int) -> int {
    q + trunc_div(learning_rate * (reward + trunc_div(discount * max_next, PER_MILLE as int) - q), PER_MILLE as int)
}

/// The exploration rate after one decay step, rounded up so that it never reaches zero.
pub open spec fn decayed(epsilon: int, decay: int) -> int {
    (epsilon * decay + (PER_MILLE - 1)) / (PER_MILLE as int)
}

/// The exploration rate after `k` decay steps from `epsilon`.
pub open spec fn epsilon_after(epsilon: int, decay: int, k: nat) -> int
    decreases k,
{
    if k == 0 {
        epsilon
    } else {
        decayed(epsilon_after(epsilon, decay, (k - 1) as nat), decay)
    }
}

/// A tabular controller: one row per observation slot, one column per
/// action, with learning rate, discount and decay in thousandths and the
/// exploration rate scaled by `EPSILON_SCALE`.
pub struct QLearning {
    pub q_table: QMatrix,
    state_size: usize,
    action_size: usize,
    learning_rate: u64,
    discount_factor: u64,
    epsilon: u64,
    epsilon_decay: u64,
}

impl QLearning {
    pub closed spec fn rows(&self) -> int {
        self.state_size as int
    }

    pub closed spec fn cols(&self) -> int {
        self.action_size as int
    }

    /// The Q-values, row after row.
    pub closed spec fn cells(&self) -> Seq<i64> {
        matrix_cells(self.q_table)
    }

    pub closed spec fn epsilon_spec(&self) -> int {
        self.epsilon as int
    }

    pub closed spec fn epsilon_decay_spec(&self) -> int {
        self.epsilon_decay as int
    }

    pub closed spec fn learning_rate_spec(&self) -> int {
        self.learning_rate as int
    }

    pub closed spec fn discount_spec(&self) -> int {
        self.discount_factor as int
    }

    /// The Q-value at row `s`, column `a`.
    pub open spec fn q(&self, s: int, a: int) -> int {
        self.cells()[s * self.cols() + a] as int
    }

    /// A non-empty table whose values stay within `Q_BOUND`, rates in
    /// thousandths, and a positive exploration rate that never exceeds one.
    pub closed spec fn wf(&self) -> bool {
        &&& matrix_shape(self.q_table) == (self.rows(), self.cols())
        &&& self.rows() > 0
        &&& self.cols() > 0
        &&& self.rows() * self.cols() <= isize::MAX
        &&& self.cells().len() == self.rows() * self.cols()
        &&& forall|i: int| 0 <= i < self.cells().len() ==> -Q_BOUND <= #[trigger] self.cells()[i] <= Q_BOUND
        &&& self.learning_rate <= PER_MILLE
        &&& self.discount_factor <= 990
        &&& 1 <= self.epsilon_decay <= PER_MILLE
        &&& 1 <= self.epsilon <= EPSILON_SCALE
    }

    /// The row that an observation selects: the position of its first largest component.
    pub open spec fn row_of(state: Seq<u64>, row: int) -> bool {
        is_first_max(state, row)
    }

    /// The column of the first largest Q-value in row `s`.
    pub open spec fn best_in_row(&self, s: int, a: int) -> bool {
        &&& 0 <= a < self.cols()
        &&& forall|j: int| 0 <= j < self.cols() ==> self.q(s, j) <= self.q(s, a)
        &&& forall|j: int| 0 <= j < a ==> self.q(s, j) < self.q(s, a)
    }

    /// A table of zeros with learning rate 0.1, discount 0.99, exploration
    /// rate 1.0 and decay 0.995.
    pub fn new(state_size: usize, action_size: usize) -> (r: Self)
        requires
            state_size > 0,
            action_size > 0,
            state_size * action_size <= isize::MAX,
        ensures
            r.wf(),
            r.rows() == state_size,
            r.cols() == action_size,
            forall|s: int, a: int| 0 <= s < state_size && 0 <= a < action_size ==> #[trigger] r.q(s, a) == 0,
            r.learning_rate_spec() == 100,
            r.discount_spec() == 990,
            r.epsilon_spec() == EPSILON_SCALE,
            r.epsilon_decay_spec() == 995,
    {
        proof {
            assert(state_size <= state_size * action_size && action_size <= state_size * action_size)
                by (nonlinear_arith)
                requires
                    state_size >= 1,
                    action_size >= 1,
            ;
        }
        let q_table = QMatrix::zeros(state_size, action_size);
        let r = QLearning {
            q_table,
            state_size,
            action_size,
            learning_rate: 100,
            discount_factor: 990,
            epsilon: EPSILON_SCALE,
            epsilon_decay: 995,
        };
        proof {
            assert forall|s: int, a: int| 0 <= s < state_size && 0 <= a < action_size implies #[trigger] r.q(s, a) == 0 by {
                lemma_cell_index(s, a, state_size as int, action_size as int);
            }
        }
        r
    }

    /// The exploration rate, scaled by `EPSILON_SCALE`.
    pub fn epsilon(&self) -> (r: u64)
        ensures
            r == self.epsilon_spec(),
    {
        self.epsilon
    }

    /// The number of rows, one per observation slot.
    pub fn state_size(&self) -> (r: usize)
        ensures
            r == self.rows(),
    {
        self.state_size
    }

    /// The number of columns, one per action.
    pub fn action_size(&self) -> (r: usize)
        ensures
            r == self.cols(),
    {
        self.action_size
    }
}

/// What a well-formed controller guarantees of its rates and values.
pub proof fn lemma_wf_bounds(q: QLearning)
    requires
        q.wf(),
    ensures
        q.rows() > 0,
        q.cols() > 0,
        q.cells().len() == q.rows() * q.cols(),
        forall|s: int, a: int| 0 <= s < q.rows() && 0 <= a < q.cols() ==> -Q_BOUND <= #[trigger] q.q(s, a) <= Q_BOUND,
        0 <= q.learning_rate_spec() <= PER_MILLE,
        0 <= q.discount_spec() <= 990,
        1 <= q.epsilon_decay_spec() <= PER_MILLE,
        1 <= q.epsilon_spec() <= EPSILON_SCALE,
{
    assert forall|s: int, a: int| 0 <= s < q.rows() && 0 <= a < q.cols() implies -Q_BOUND <= #[trigger] q.q(s, a) <= Q_BOUND by {
        lemma_cell_index(s, a, q.rows(), q.cols());
    }
}

/// Cell `(s, a)` of a row-major matrix lies inside its storage.
pub proof fn lemma_cell_index(s: int, a: int, rows: int, cols: int)
    requires
        0 <= s < rows,
        0 <= a < cols,
    ensures
        0 <= s * cols + a < rows * cols,
{
    assert(0 <= s * cols + a < rows * cols) by (nonlinear_arith)
        requires
            0 <= s < rows,
            0 <= a < cols,
    ;
}

/// Truncating division moves towards zero and keeps the sign.
pub proof fn lemma_trunc_div(a: int, d: int)
    requires
        d > 0,
    ensures
        a >= 0 ==> 0 <= trunc_div(a, d) * d <= a && trunc_div(a, d) >= 0,
        a < 0 ==> a <= trunc_div(a, d) * d <= 0 && trunc_div(a, d) <= 0,
{
    let m = if a >= 0 { a } else { -a };
    vstd::arithmetic::div_mod::lemma_fundamental_div_mod(m, d);
    vstd::arithmetic::div_mod::lemma_div_pos_is_pos(m, d);
    let qt = m / d;
    let rm = m % d;
    assert(m == d * qt + rm && 0 <= rm < d);
    assert(0 <= qt * d <= m) by (nonlinear_arith)
        requires
            m == d * qt + rm,
            0 <= rm < d,
            qt >= 0,
            d > 0,
    ;
    if a < 0 {
        assert(trunc_div(a, d) == -qt);
        assert((-qt) * d == -(qt * d)) by (nonlinear_arith);
    }
}

/// One update keeps a Q-value within `Q_BOUND` when the old value, the best
/// next value and the reward are within their bounds.
pub proof fn lemma_updated_q_bounded(q: int, reward: int, max_next: int, learning_rate: int, discount: int)
    requires
        -Q_BOUND <= q <= Q_BOUND,
        -Q_BOUND <= max_next <= Q_BOUND,
        -REWARD_SCALE <= reward <= REWARD_SCALE,
        0 <= learning_rate <= PER_MILLE,
        0 <= discount <= 990,
    ensures
        -Q_BOUND <= updated_q(q, reward, max_next, learning_rate, discount) <= Q_BOUND,
{
    let b = Q_BOUND as int;
    let dm = discount * max_next;
    assert(-990 * b <= dm <= 990 * b) by (nonlinear_arith)
        requires
            dm == discount * max_next,
            -b <= max_next <= b,
            0 <= discount <= 990,
            b > 0,
    ;
    let g = trunc_div(dm, 1000);
    lemma_trunc_div(dm, 1000);
    assert(-990 * b <= g * 1000 <= 990 * b);
    let t = reward + g - q;
    let lt = learning_rate * t;
    let step = trunc_div(lt, 1000);
    lemma_trunc_div(lt, 1000);
    assert(lt == learning_rate * reward + learning_rate * g - learning_rate * q) by (nonlinear_arith)
        requires
            lt == learning_rate * t,
            t == reward + g - q,
    ;
    assert(-(learning_rate * REWARD_SCALE) <= learning_rate * reward <= learning_rate * REWARD_SCALE) by (nonlinear_arith)
        requires
            0 <= learning_rate,
            -REWARD_SCALE <= reward <= REWARD_SCALE,
    ;
    assert(-(learning_rate * 990 * b) <= learning_rate * (g * 1000) <= learning_rate * 990 * b) by (nonlinear_arith)
        requires
            0 <= learning_rate,
            -990 * b <= g * 1000 <= 990 * b,
    ;
    assert(learning_rate * (g * 1000) == (learning_rate * g) * 1000) by (nonlinear_arith);
    assert(-((1000 - learning_rate) * b) <= (1000 - learning_rate) * q <= (1000 - learning_rate) * b) by (nonlinear_arith)
        requires
            learning_rate <= 1000,
            -b <= q <= b,
    ;
    assert((1000 - learning_rate) * q == 1000 * q - learning_rate * q) by (nonlinear_arith);
    assert((1000 - learning_rate) * b == 1000 * b - learning_rate * b) by (nonlinear_arith);
    assert(learning_rate * 990 * b == 990 * (learning_rate * b)) by (nonlinear_arith);
    assert(learning_rate * REWARD_SCALE * 100 == learning_rate * b) by (nonlinear_arith)
        requires
            b == REWARD_SCALE * 100,
    ;
    if lt >= 0 {
        assert(step * 1000 <= lt);
        assert(t >= 0 || learning_rate == 0) by (nonlinear_arith)
            requires
                lt == learning_rate * t,
                lt >= 0,
                learning_rate >= 0,
        ;
    } else {
        assert(step * 1000 >= lt);
    }
}

/// The position of the first largest component of a non-empty observation.
pub fn first_max_index(state: &Vec<u64>) -> (r: usize)
    requires
        state.len() > 0,
    ensures
        is_first_max(state@, r as int),
{
    let mut best: usize = 0;
    let mut i: usize = 1;
    while i < state.len()
        invariant
            1 <= i <= state.len(),
            is_first_max(state@.subrange(0, i as int), best as int),
        decreases state.len() - i,
    {
        if state[i] > state[best] {
            best = i;
        }
        i += 1;
        assert(state@.subrange(0, i as int) == state@.subrange(0, i - 1).push(state@[i - 1]));
    }
    assert(state@.subrange(0, state.len() as int) == state@);
    best
}

fn trunc_div_exec(a: i128, d: i128) -> (r: i128)
    requires
        d > 0,
        a > i128::MIN,
    ensures
        r == trunc_div(a as int, d as int),
{
    if a >= 0 { a / d } else { -((-a) / d) }
}

/// The exploration rate after `k` updates never reaches zero, never grows
/// from one update to the next, and stays between `epsilon * decay^k` and
/// that value plus `k`, measured in the units of `EPSILON_SCALE`.
pub proof fn lemma_epsilon_decay(epsilon: int, decay: int, k: nat)
    requires
        epsilon >= 1,
        1 <= decay <= PER_MILLE,
    ensures
        epsilon_after(epsilon, decay, k) >= 1,
        epsilon_after(epsilon, decay, k + 1) <= epsilon_after(epsilon, decay, k),
        epsilon_after(epsilon, decay, k) * pow(PER_MILLE as int, k) >= epsilon * pow(decay, k),
        epsilon_after(epsilon, decay, k) * pow(PER_MILLE as int, k) <= epsilon * pow(decay, k) + k * pow(PER_MILLE as int, k),
    decreases k,
{
    reveal(pow);
    let e = epsilon_after(epsilon, decay, k);
    if k == 0 {
        assert(pow(PER_MILLE as int, 0) == 1 && pow(decay, 0) == 1);
    } else {
        let k1 = (k - 1) as nat;
        lemma_epsilon_decay(epsilon, decay, k1);
        let p = epsilon_after(epsilon, decay, k1);
        let pm = pow(PER_MILLE as int, k1);
        let pd = pow(decay, k1);
        assert(pow(PER_MILLE as int, k) == 1000 * pm);
        assert(pow(decay, k) == decay * pd);
        vstd::arithmetic::power::lemma_pow_positive(PER_MILLE as int, k1);
        assert(e == (p * decay + 999) / 1000);
        vstd::arithmetic::div_mod::lemma_fundamental_div_mod(p * decay + 999, 1000);
        let rm = (p * decay + 999) % 1000;
        assert(p * decay + 999 == 1000 * e + rm && 0 <= rm < 1000);
        assert(e >= 1) by (nonlinear_arith)
            requires
                p * decay + 999 == 1000 * e + rm,
                0 <= rm < 1000,
                p >= 1,
                decay >= 1,
        ;
        assert(1000 * e >= p * decay);
        assert(1000 * e <= p * decay + 999);
        assert(e * (1000 * pm) >= epsilon * (decay * pd)) by (nonlinear_arith)
            requires
                1000 * e >= p * decay,
                p * pm >= epsilon * pd,
                pm > 0,
                decay >= 1,
        ;
        assert(e * (1000 * pm) <= (p * decay + 999) * pm) by (nonlinear_arith)
            requires
                1000 * e <= p * decay + 999,
                pm > 0,
        ;
        assert((p * decay + 999) * pm == decay * (p * pm) + 999 * pm) by (nonlinear_arith);
        assert(decay * (p * pm) <= decay * (epsilon * pd + k1 * pm)) by (nonlinear_arith)
            requires
                p * pm <= epsilon * pd + k1 * pm,
                decay >= 1,
        ;
        assert(decay * (epsilon * pd + k1 * pm) == epsilon * (decay * pd) + (decay * k1) * pm) by (nonlinear_arith);
        assert((decay * k1) * pm <= (1000 * k1) * pm) by (nonlinear_arith)
            requires
                decay <= 1000,
                k1 >= 0,
                pm > 0,
        ;
        assert((1000 * k1) * pm + 999 * pm <= k * (1000 * pm)) by (nonlinear_arith)
            requires
                k == k1 + 1,
                pm > 0,
        ;
    }
    let e1 = epsilon_after(epsilon, decay, k + 1);
    assert(e1 == (e * decay + 999) / 1000);
    vstd::arithmetic::div_mod::lemma_fundamental_div_mod(e * decay + 999, 1000);
    assert(e1 <= e) by (nonlinear_arith)
        requires
            e * decay + 999 == 1000 * e1 + (e * decay + 999) % 1000,
            0 <= (e * decay + 999) % 1000,
            decay <= 1000,
            e >= 1,
    ;
}

impl QLearning {
    fn best_action(&self, row: usize) -> (r: usize)
        requires
            self.wf(),
            row < self.rows(),
        ensures
            self.best_in_row(row as int, r as int),
    {
        let mut best: usize = 0;
        proof {
            lemma_cell_index(row as int, 0, self.rows(), self.cols());
        }
        let mut best_value = self.q_table.get(row, 0);
        let mut j: usize = 1;
        while j < self.action_size
            invariant
                self.wf(),
                row < self.rows(),
                1 <= j <= self.cols(),
                0 <= best < j,
                best_value == self.q(row as int, best as int),
                forall|i: int| 0 <= i < j ==> self.q(row as int, i) <= self.q(row as int, best as int),
                forall|i: int| 0 <= i < best ==> self.q(row as int, i) < self.q(row as int, best as int),
            decreases self.cols() - j,
        {
            proof {
                lemma_cell_index(row as int, j as int, self.rows(), self.cols());
            }
            let v = self.q_table.get(row, j);
            if v > best_value {
                best = j;
                best_value = v;
            }
            j += 1;
        }
        best
    }

    /// The action of the first largest Q-value in the row that the observation selects.
    pub fn greedy_action(&self, state: &Vec<u64>) -> (r: usize)
        requires
            self.wf(),
            state.len() == self.rows(),
        ensures
            r < self.cols(),
            forall|row: int| Self::row_of(state@, row) ==> self.best_in_row(row, r as int),
    {
        let row = first_max_index(state);
        let r = self.best_action(row);
        proof {
            assert forall|other: int| Self::row_of(state@, other) implies self.best_in_row(other, r as int) by {
                if other < row {
                    assert(state@[other] < state@[row as int]);
                } else if other > row {
                    assert(state@[row as int] < state@[other]);
                }
            }
        }
        r
    }

    /// Epsilon-greedy choice with the random outcomes given: `explore_draw`
    /// is uniform in `0..EPSILON_SCALE`, and `random_action` is the action
    /// taken when it falls below the exploration rate.
    pub fn choose_action_with(&self, state: &Vec<u64>, explore_draw: u64, random_action: usize) -> (r: usize)
        requires
            self.wf(),
            state.len() == self.rows(),
            random_action < self.cols(),
        ensures
            r < self.cols(),
            explore_draw < self.epsilon_spec() ==> r == random_action,
            explore_draw >= self.epsilon_spec() ==> forall|row: int| Self::row_of(state@, row) ==> self.best_in_row(row, r as int),
    {
        if explore_draw < self.epsilon {
            random_action
        } else {
            self.greedy_action(state)
        }
    }

    /// Epsilon-greedy choice: a uniformly random action with probability
    /// epsilon, the greedy action otherwise.
    pub fn choose_action(&self, state: &Vec<u64>) -> (r: usize)
        requires
            self.wf(),
            state.len() == self.rows(),
        ensures
            r < self.cols(),
    {
        let explore_draw = random_below(EPSILON_SCALE);
        let random_action = random_below(self.action_size as u64) as usize;
        self.choose_action_with(state, explore_draw, random_action)
    }

    /// One tabular Q-learning step on the rows that `state` and `next_state`
    /// select, followed by one decay of the exploration rate.
    pub fn update(&mut self, state: &Vec<u64>, action: usize, reward: i64, next_state: &Vec<u64>)
        requires
            old(self).wf(),
            state.len() == old(self).rows(),
            next_state.len() == old(self).rows(),
            action < old(self).cols(),
            -REWARD_SCALE <= reward <= REWARD_SCALE,
        ensures
            final(self).wf(),
            is_update(*old(self), *final(self), state@, action as int, reward as int, next_state@),
    {
        let ghost pre = *self;
        let row = first_max_index(state);
        let next_row = first_max_index(next_state);
        let best_next = self.best_action(next_row);
        proof {
            lemma_cell_index(row as int, action as int, self.rows(), self.cols());
            lemma_cell_index(next_row as int, best_next as int, self.rows(), self.cols());
        }
        let max_next_q = self.q_table.get(next_row, best_next);
        let q_value = self.q_table.get(row, action);
        proof {
            lemma_updated_q_bounded(
                q_value as int,
                reward as int,
                max_next_q as int,
                self.learning_rate as int,
                self.discount_factor as int,
            );
            lemma_trunc_div(self.discount_factor * max_next_q, 1000);
            let g = trunc_div(self.discount_factor * max_next_q, 1000);
            assert(-990 * Q_BOUND <= self.discount_factor * max_next_q <= 990 * Q_BOUND) by (nonlinear_arith)
                requires
                    -Q_BOUND <= max_next_q <= Q_BOUND,
                    0 <= self.discount_factor <= 990,
            ;
            assert(-Q_BOUND <= g <= Q_BOUND) by (nonlinear_arith)
                requires
                    -990 * Q_BOUND <= g * 1000 <= 990 * Q_BOUND,
            ;
            let t = reward + g - q_value;
            assert(-(1000 * 300000000) <= self.learning_rate * t <= 1000 * 300000000) by (nonlinear_arith)
                requires
                    -300000000 <= t <= 300000000,
                    0 <= self.learning_rate <= 1000,
            ;
        }
        let discounted = trunc_div_exec(self.discount_factor as i128 * max_next_q as i128, PER_MILLE as i128);
        let step = trunc_div_exec(
            self.learning_rate as i128 * (reward as i128 + discounted - q_value as i128),
            PER_MILLE as i128,
        );
        let new_value = (q_value as i128 + step) as i64;
        self.q_table.set(row, action, new_value);
        proof {
            assert(self.cells().len() == pre.cells().len());
            assert forall|i: int| 0 <= i < self.cells().len() implies -Q_BOUND <= #[trigger] self.cells()[i] <= Q_BOUND by {
                if i != row * pre.cols() + action {
                    assert(self.cells()[i] == pre.cells()[i]);
                }
            }
            assert forall|s: int, n: int, b: int|
                Self::row_of(state@, s) && Self::row_of(next_state@, n) && pre.best_in_row(n, b)
                implies #[trigger] self.cells() == pre.cells().update(
                    s * pre.cols() + action,
                    updated_q(pre.q(s, action as int), reward as int, pre.q(n, b), pre.learning_rate_spec(), pre.discount_spec()) as i64,
                ) by {
                lemma_first_max_unique(state@, s, row as int);
                lemma_first_max_unique(next_state@, n, next_row as int);
                if b < best_next {
                    assert(pre.q(n, b) >= pre.q(n, best_next as int));
                } else if b > best_next {
                    assert(pre.q(n, best_next as int) >= pre.q(n, b));
                }
            }
        }
        proof {
            assert(self.epsilon * self.epsilon_decay <= 1000000000000000) by (nonlinear_arith)
                requires
                    self.epsilon <= EPSILON_SCALE,
                    self.epsilon_decay <= 1000,
            ;
        }
        self.epsilon = (self.epsilon * self.epsilon_decay + (PER_MILLE - 1)) / PER_MILLE;
        proof {
            lemma_epsilon_decay(pre.epsilon as int, pre.epsilon_decay as int, 0);
            lemma_epsilon_decay(pre.epsilon as int, pre.epsilon_decay as int, 1);
            reveal_with_fuel(epsilon_after, 2);
            assert(epsilon_after(pre.epsilon as int, pre.epsilon_decay as int, 1)
                == decayed(pre.epsilon as int, pre.epsilon_decay as int));
            assert(self.epsilon >= 1);
            assert(self.epsilon <= pre.epsilon);
        }
    }
}

/// An observation selects exactly one row.
pub proof fn lemma_first_max_unique(s: Seq<u64>, i: int, j: int)
    requires
        is_first_max(s, i),
        is_first_max(s, j),
    ensures
        i == j,
{
    if i < j {
        assert(s[i] < s[j]);
    } else if j < i {
        assert(s[j] < s[i]);
    }
}

/// The sum of a sequence of values.
pub open spec fn sum_of(s: Seq<i64>) -> int
    decreases s.len(),
{
    if s.len() == 0 {
        0
    } else {
        sum_of(s.drop_last()) + s.last()
    }
}

impl QLearning {
    /// The Q-value at row `row`, column `col`.
    pub fn q_value(&self, row: usize, col: usize) -> (r: i64)
        requires
            self.wf(),
            row < self.rows(),
            col < self.cols(),
        ensures
            r == self.q(row as int, col as int),
    {
        proof {
            lemma_cell_index(row as int, col as int, self.rows(), self.cols());
        }
        self.q_table.get(row, col)
    }

    /// The sum of all Q-values.
    pub fn table_sum(&self) -> (r: i128)
        requires
            self.wf(),
        ensures
            r == sum_of(self.cells()),
    {
        let mut total: i128 = 0;
        let mut row: usize = 0;
        while row < self.state_size
            invariant
                self.wf(),
                0 <= row <= self.rows(),
                total == sum_of(self.cells().subrange(0, row * self.cols())),
                -(row * self.cols()) * Q_BOUND <= total <= row * self.cols() * Q_BOUND,
            decreases self.rows() - row,
        {
            let mut col: usize = 0;
            while col < self.action_size
                invariant
                    self.wf(),
                    0 <= row < self.rows(),
                    0 <= col <= self.cols(),
                    total == sum_of(self.cells().subrange(0, row * self.cols() + col)),
                    -(row * self.cols() + col) * Q_BOUND <= total <= (row * self.cols() + col) * Q_BOUND,
                decreases self.cols() - col,
            {
                proof {
                    lemma_cell_index(row as int, col as int, self.rows(), self.cols());
                    assert((row * self.cols() + col) * Q_BOUND <= isize::MAX * Q_BOUND) by (nonlinear_arith)
                        requires
                            row * self.cols() + col < self.rows() * self.cols(),
                            self.rows() * self.cols() <= isize::MAX,
                    ;
                }
                let v = self.q_table.get(row, col);
                proof {
                    let k = row * self.cols() + col;
                    assert(self.cells().subrange(0, k + 1).drop_last() == self.cells().subrange(0, k));
                }
                total = total + v as i128;
                col += 1;
            }
            proof {
                assert((row + 1) * self.cols() == row * self.cols() + self.cols()) by (nonlinear_arith);
            }
            row += 1;
        }
        proof {
            assert(self.cells().subrange(0, self.rows() * self.cols()) == self.cells());
        }
        total
    }
}

/// `post` is `pre` after one Q-learning step: the value of `action` in the
/// row that `state` selects moves towards the reward plus the discounted best
/// value of the row that `next_state` selects, and the exploration rate decays.
pub open spec fn is_update(pre: QLearning, post: QLearning, state: Seq<u64>, action: int, reward: int, next_state: Seq<u64>) -> bool {
    &&& post.rows() == pre.rows()
    &&& post.cols() == pre.cols()
    &&& post.learning_rate_spec() == pre.learning_rate_spec()
    &&& post.discount_spec() == pre.discount_spec()
    &&& post.epsilon_decay_spec() == pre.epsilon_decay_spec()
    &&& post.epsilon_spec() == decayed(pre.epsilon_spec(), pre.epsilon_decay_spec())
    &&& forall|s: int, n: int, b: int|
        QLearning::row_of(state, s) && QLearning::row_of(next_state, n) && pre.best_in_row(n, b)
        ==> #[trigger] post.cells() == pre.cells().update(
            s * pre.cols() + action,
            updated_q(pre.q(s, action), reward, pre.q(n, b), pre.learning_rate_spec(), pre.discount_spec()) as i64,
        )
}

} // verus!
