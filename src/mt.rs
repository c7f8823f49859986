use vstd::prelude::*;

verus! {

/// Number of bits the tempering and twist constants are designed for.
pub const WORD_BITS: u32 = 32;

/// Number of words in the generator state.
pub const STATE_LEN: usize = 624;

/// Multiplier of the seeding recurrence.
pub const INIT_MULT: u128 = 1812433253;

/// Offset of the word mixed into each twisted word.
pub const MIDDLE: usize = 397;

/// Bit position separating the upper and lower parts of a word in the twist.
pub const SEPARATION: u32 = 31;

/// Matrix constant xored into odd twist combinations.
pub const TWIST_XOR: u128 = 0x9908B0DF;

/// Tempering shift and mask constants.
pub const TEMPER_U: u32 = 11;
pub const TEMPER_D: u128 = 0xFFFFFFFF;
pub const TEMPER_S: u32 = 7;
pub const TEMPER_B: u128 = 0x9D2C5680;
pub const TEMPER_T: u32 = 15;
pub const TEMPER_C: u128 = 0xEFC60000;
pub const TEMPER_L: u32 = 18;

/// The tempering transform applied to a raw state word to produce an output.
pub open spec fn temper_word(y: u128) -> u128 {
    let y1 = y ^ ((y >> TEMPER_U) & TEMPER_D);
    let y2 = y1 ^ ((y1 << TEMPER_S) & TEMPER_B);
    let y3 = y2 ^ ((y2 << TEMPER_T) & TEMPER_C);
    y3 ^ (y3 >> TEMPER_L)
}

/// Mask of the bits below `SEPARATION`.
pub open spec fn lower_mask() -> u128 {
    0x7FFF_FFFF
}

/// Mask of the bits from `SEPARATION` upward, over the full storage width.
pub open spec fn upper_mask() -> u128 {
    !lower_mask()
}

/// The new value of a word in the twist, from the word itself (`cur`), its
/// successor (`next`) and the word `MIDDLE` places ahead (`far`).
pub open spec fn twist_word(cur: u128, next: u128, far: u128) -> u128 {
    let combined = ((cur & upper_mask()) + (next & lower_mask())) as u128;
    let folded = if combined % 2 == 1 {
        (combined >> 1u32) ^ TWIST_XOR
    } else {
        combined >> 1u32
    };
    far ^ folded
}

/// The state after the first `k` in-place updates of a twist pass: update
/// `i` rewrites word `i` from the words as they stand at that moment. The
/// successor and the word `MIDDLE` ahead are still unchanged while their
/// index lies ahead of `i`; the reads that wrap around to the start (the
/// last `MIDDLE` updates, and the successor of the last word) see words this
/// pass has already rewritten, as in the usual single-buffer twist.
pub open spec fn twist_prefix(x: Seq<u128>, k: nat) -> Seq<u128>
    decreases k,
{
    if k == 0 {
        x
    } else {
        let y = twist_prefix(x, (k - 1) as nat);
        let i = k - 1;
        y.update(
            i,
            twist_word(y[i], y[(i + 1) % (STATE_LEN as int)], y[(i + MIDDLE) % (STATE_LEN as int)]),
        )
    }
}

/// The state after a full twist pass.
pub open spec fn twisted(x: Seq<u128>) -> Seq<u128> {
    twist_prefix(x, STATE_LEN as nat)
}

/// One step of the seeding recurrence: the word at position `i` from the word
/// before it, reduced modulo the full 128-bit storage range.
pub open spec fn seed_next(prev: u128, i: int) -> u128 {
    ((INIT_MULT * (prev ^ (prev >> ((WORD_BITS - 2) as u32))) + i) % (u128::MAX + 1)) as u128
}

/// Word `i` of the state produced by the seeding recurrence from `seed`.
pub open spec fn seed_word(seed: u128, i: nat) -> u128
    decreases i,
{
    if i == 0 {
        seed
    } else {
        seed_next(seed_word(seed, (i - 1) as nat), i as int)
    }
}

/// The state filled by the seeding recurrence, before any twist.
pub open spec fn seeded(seed: u128) -> Seq<u128> {
    Seq::new(STATE_LEN as nat, |i: int| seed_word(seed, i as nat))
}

/// The state a freshly seeded generator starts from: the seeded words after
/// one twist, with no output taken yet.
pub open spec fn initial_state(seed: u128) -> (Seq<u128>, nat) {
    (twisted(seeded(seed)), 0nat)
}

/// The state after one output request: a twist first when the cursor has
/// reached the end of the words, then the cursor moves on by one.
pub open spec fn step_state(s: (Seq<u128>, nat)) -> (Seq<u128>, nat) {
    if s.1 == STATE_LEN {
        (twisted(s.0), 1nat)
    } else {
        (s.0, s.1 + 1)
    }
}

/// The value returned by one output request from state `s`.
pub open spec fn step_output(s: (Seq<u128>, nat)) -> u128 {
    if s.1 == STATE_LEN {
        temper_word(twisted(s.0)[0])
    } else {
        temper_word(s.0[s.1 as int])
    }
}

/// The state after `k` output requests.
pub open spec fn advance(s: (Seq<u128>, nat), k: nat) -> (Seq<u128>, nat)
    decreases k,
{
    if k == 0 {
        s
    } else {
        step_state(advance(s, (k - 1) as nat))
    }
}

/// The values returned by `k` output requests, in order.
pub open spec fn outputs(s: (Seq<u128>, nat), k: nat) -> Seq<u128>
    decreases k,
{
    if k == 0 {
        Seq::empty()
    } else {
        let prev = (k - 1) as nat;
        outputs(s, prev).push(step_output(advance(s, prev)))
    }
}

/// `k` output requests give `k` values.
pub proof fn lemma_outputs_len(s: (Seq<u128>, nat), k: nat)
    ensures
        outputs(s, k).len() == k,
    decreases k,
{
    if k > 0 {
        lemma_outputs_len(s, (k - 1) as nat);
    }
}

/// Wrapping multiply then wrapping add equals the sum reduced once.
proof fn lemma_wrapping_mul_add(a: u128, b: u128, c: u128)
    ensures
        (a.wrapping_mul(b)).wrapping_add(c) == ((a * b + c) % (u128::MAX + 1)) as u128,
{
    let m: int = u128::MAX + 1;
    let p: int = (a * b) % m;
    vstd::arithmetic::div_mod::lemma_add_mod_noop_right(c as int, a * b, m);
    if p + c < m {
        vstd::arithmetic::div_mod::lemma_small_mod((p + c) as nat, m as nat);
    } else {
        vstd::arithmetic::div_mod::lemma_mod_sub_multiples_vanish(p + c, m);
        vstd::arithmetic::div_mod::lemma_small_mod((p + c - m) as nat, m as nat);
    }
    assert((c + a * b) == (a * b + c));
    assert((c + p) == (p + c));
}

/// The generator state and the count of outputs taken since the last twist.
pub struct MT19937 {
    x: Vec<u128>,
    cnt: usize,
}

impl View for MT19937 {
    /// The state words and the output cursor.
    type V = (Seq<u128>, nat);

    closed spec fn view(&self) -> (Seq<u128>, nat) {
        (self.x@, self.cnt as nat)
    }
}

impl MT19937 {
    /// The state holds `STATE_LEN` words and the cursor lies in `0..=STATE_LEN`.
    pub open spec fn wf(&self) -> bool {
        self@.0.len() == STATE_LEN && self@.1 <= STATE_LEN
    }

    /// A generator seeded with `seed` (see `initialize`).
    pub fn new(seed: u128) -> (r: Self)
        ensures
            r.wf(),
            r@ == initial_state(seed),
    {
        let mut mt = MT19937 { x: vec![0u128; STATE_LEN], cnt: 0 };
        mt.initialize(seed);
        mt
    }

    /// Refills the state from `seed` by the seeding recurrence, keeping the
    /// seed unmasked as the first word, then twists once.
    pub fn initialize(&mut self, seed: u128)
        requires
            old(self).wf(),
        ensures
            final(self).wf(),
            final(self)@ == initial_state(seed),
    {
        self.x.set(0, seed);
        let mut i: usize = 1;
        while i < STATE_LEN
            invariant
                1 <= i <= STATE_LEN,
                self.x@.len() == STATE_LEN,
                self.cnt <= STATE_LEN,
                forall|j: int| 0 <= j < i ==> self.x@[j] == seed_word(seed, j as nat),
            decreases STATE_LEN - i,
        {
            let prev = self.x[i - 1];
            let mixed: u128 = prev ^ (prev >> (WORD_BITS - 2));
            let word = INIT_MULT.wrapping_mul(mixed).wrapping_add(i as u128);
            proof {
                lemma_wrapping_mul_add(INIT_MULT, mixed, i as u128);
            }
            self.x.set(i, word);
            i = i + 1;
        }
        assert(self.x@ =~= seeded(seed));
        self.twist();
    }

    /// Returns the next tempered output, twisting first when every word of
    /// the current state has been used.
    pub fn temper(&mut self) -> (r: u128)
        requires
            old(self).wf(),
        ensures
            final(self).wf(),
            final(self)@ == step_state(old(self)@),
            r == step_output(old(self)@),
    {
        if self.cnt == STATE_LEN {
            self.twist();
        }
        let mut y: u128 = self.x[self.cnt];
        y = y ^ ((y >> TEMPER_U) & TEMPER_D);
        y = y ^ ((y << TEMPER_S) & TEMPER_B);
        y = y ^ ((y << TEMPER_T) & TEMPER_C);
        y = y ^ (y >> TEMPER_L);
        self.cnt = self.cnt + 1;
        y
    }

    /// Takes one output and reports whether it is even.
    pub fn coinflip(&mut self) -> (r: bool)
        requires
            old(self).wf(),
        ensures
            final(self).wf(),
            final(self)@ == step_state(old(self)@),
            r == (step_output(old(self)@) % 2 == 0),
    {
        self.temper() % 2 == 0
    }

    /// Refreshes every state word in one in-place pass and resets the cursor.
    pub fn twist(&mut self)
        requires
            old(self).wf(),
        ensures
            final(self).wf(),
            final(self)@ == (twisted(old(self)@.0), 0nat),
    {
        assert(1u128 << SEPARATION == 0x8000_0000u128) by (bit_vector);
        let lower: u128 = (1u128 << SEPARATION) - 1;
        let upper: u128 = !lower;
        let ghost start = self.x@;
        let mut i: usize = 0;
        while i < STATE_LEN
            invariant
                0 <= i <= STATE_LEN,
                self.x@.len() == STATE_LEN,
                lower == lower_mask(),
                upper == upper_mask(),
                self.x@ == twist_prefix(start, i as nat),
            decreases STATE_LEN - i,
        {
            let cur = self.x[i];
            let next = self.x[(i + 1) % STATE_LEN];
            let far = self.x[(i + MIDDLE) % STATE_LEN];
            assert((cur & upper) + (next & lower) <= u128::MAX) by (bit_vector)
                requires
                    lower == 0x7FFF_FFFFu128,
                    upper == !lower,
            ;
            let combined: u128 = (cur & upper) + (next & lower);
            let mut folded: u128 = combined >> 1u32;
            if combined % 2 != 0 {
                folded = folded ^ TWIST_XOR;
            }
            self.x.set(i, far ^ folded);
            i = i + 1;
        }
        self.cnt = 0;
    }
}

/// Determinism: two generators in the same state return the same values for
/// the same number of output requests and are left in the same state; in
/// particular two generators built from the same seed do.
pub proof fn lemma_deterministic(g1: MT19937, g2: MT19937, k: nat)
    requires
        g1@ == g2@,
    ensures
        outputs(g1@, k) == outputs(g2@, k),
        advance(g1@, k) == advance(g2@, k),
{
}

/// From cursor `c`, `k` output requests that stay within the words twist
/// nothing: they return the tempered words `c..c + k` in order.
pub proof fn lemma_no_twist_within(words: Seq<u128>, c: nat, k: nat)
    requires
        words.len() == STATE_LEN,
        c + k <= STATE_LEN,
    ensures
        advance((words, c), k) == (words, c + k),
        outputs((words, c), k) =~= Seq::new(k, |i: int| temper_word(words[c + i])),
    decreases k,
{
    if k > 0 {
        lemma_no_twist_within(words, c, (k - 1) as nat);
    }
}

/// The twist cycle: after a twist, `STATE_LEN` output requests use up the
/// tempered words without another twist, and the next request twists
/// exactly once, returns the tempered first new word and leaves the cursor
/// at 1.
pub proof fn lemma_twist_cycle(words: Seq<u128>)
    requires
        words.len() == STATE_LEN,
    ensures
        advance((words, 0), STATE_LEN as nat) == (words, STATE_LEN as nat),
        outputs((words, 0), STATE_LEN as nat) =~= Seq::new(
            STATE_LEN as nat,
            |i: int| temper_word(words[i]),
        ),
        advance((words, 0), (STATE_LEN + 1) as nat) == (twisted(words), 1nat),
        outputs((words, 0), (STATE_LEN + 1) as nat)[STATE_LEN as int] == temper_word(
            twisted(words)[0],
        ),
{
    lemma_no_twist_within(words, 0, STATE_LEN as nat);
    assert(outputs((words, 0), STATE_LEN as nat) =~= Seq::new(
        STATE_LEN as nat,
        |i: int| temper_word(words[i]),
    ));
    lemma_outputs_len((words, 0), STATE_LEN as nat);
}

/// Tempering keeps a 32-bit word within 32 bits: the masks `TEMPER_B` and
/// `TEMPER_C` clear everything the left shifts move above bit 31.
pub proof fn lemma_temper_width(y: u128)
    requires
        y < 0x1_0000_0000,
    ensures
        temper_word(y) < 0x1_0000_0000,
{
    assert(y < 0x1_0000_0000u128 ==> (y ^ ((y >> 11u32) & 0xFFFFFFFFu128)) < 0x1_0000_0000u128)
        by (bit_vector);
    let y1 = y ^ ((y >> TEMPER_U) & TEMPER_D);
    assert(y1 < 0x1_0000_0000u128 ==> (y1 ^ ((y1 << 7u32) & 0x9D2C5680u128)) < 0x1_0000_0000u128)
        by (bit_vector);
    let y2 = y1 ^ ((y1 << TEMPER_S) & TEMPER_B);
    assert(y2 < 0x1_0000_0000u128 ==> (y2 ^ ((y2 << 15u32) & 0xEFC60000u128)) < 0x1_0000_0000u128)
        by (bit_vector);
    let y3 = y2 ^ ((y2 << TEMPER_T) & TEMPER_C);
    assert(y3 < 0x1_0000_0000u128 ==> (y3 ^ (y3 >> 18u32)) < 0x1_0000_0000u128) by (bit_vector);
}

} // verus!
