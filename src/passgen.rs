use vstd::prelude::*;
use vstd::assert_seqs_equal;

use crate::mt::{advance, initial_state, outputs, MT19937};

verus! {

/// Bit enabling the uppercase class.
pub const CHARSET_UPPER: usize = 0x01;

/// Bit enabling the lowercase class.
pub const CHARSET_LOWER: usize = 0x02;

/// Bit enabling the digit class.
pub const CHARSET_NUMERIC: usize = 0x04;

/// Bit enabling the punctuation class.
pub const CHARSET_SPECIAL: usize = 0x08;

/// Every recognised class bit.
pub const CHARSET_ALL: usize = 0x0F;

/// Outputs discarded from a fresh generator before any is used.
pub const WARM_UP: usize = 26;

/// Uppercase ASCII letters.
pub open spec fn upper_alphabet() -> Seq<char> {
    seq![
        'A', 'B', 'C', 'D', 'E', 'F', 'G', 'H', 'I', 'J', 'K', 'L', 'M', 'N', 'O', 'P', 'Q',
        'R', 'S', 'T', 'U', 'V', 'W', 'X', 'Y', 'Z',
    ]
}

fn upper_chars() -> (r: Vec<char>)
    ensures
        r@ == upper_alphabet(),
{
    let r = vec![
        'A', 'B', 'C', 'D', 'E', 'F', 'G', 'H', 'I', 'J', 'K', 'L', 'M', 'N', 'O', 'P', 'Q',
        'R', 'S', 'T', 'U', 'V', 'W', 'X', 'Y', 'Z',
    ];
    assert(r@ =~= upper_alphabet());
    r
}

/// Lowercase ASCII letters.
pub open spec fn lower_alphabet() -> Seq<char> {
    seq![
        'a', 'b', 'c', 'd', 'e', 'f', 'g', 'h', 'i', 'j', 'k', 'l', 'm', 'n', 'o', 'p', 'q',
        'r', 's', 't', 'u', 'v', 'w', 'x', 'y', 'z',
    ]
}

fn lower_chars() -> (r: Vec<char>)
    ensures
        r@ == lower_alphabet(),
{
    let r = vec![
        'a', 'b', 'c', 'd', 'e', 'f', 'g', 'h', 'i', 'j', 'k', 'l', 'm', 'n', 'o', 'p', 'q',
        'r', 's', 't', 'u', 'v', 'w', 'x', 'y', 'z',
    ];
    assert(r@ =~= lower_alphabet());
    r
}

/// Decimal digits, `0` last.
pub open spec fn numeric_alphabet() -> Seq<char> {
    seq![
        '1', '2', '3', '4', '5', '6', '7', '8', '9', '0',
    ]
}

fn numeric_chars() -> (r: Vec<char>)
    ensures
        r@ == numeric_alphabet(),
{
    let r = vec![
        '1', '2', '3', '4', '5', '6', '7', '8', '9', '0',
    ];
    assert(r@ =~= numeric_alphabet());
    r
}

/// Punctuation and symbols.
pub open spec fn special_alphabet() -> Seq<char> {
    seq![
        '`', '~', '!', '@', '#', '$', '%', '^', '&', '*', '(', ')', '_', '+', '-', '=', '[',
        ']', '{', '}', '\\', ';', '\'', '"',
    ]
}

fn special_chars() -> (r: Vec<char>)
    ensures
        r@ == special_alphabet(),
{
    let r = vec![
        '`', '~', '!', '@', '#', '$', '%', '^', '&', '*', '(', ')', '_', '+', '-', '=', '[',
        ']', '{', '}', '\\', ';', '\'', '"',
    ];
    assert(r@ =~= special_alphabet());
    r
}

/// The enabled classes of `mask`, always in the order upper, lower, numeric,
/// special, skipping those whose bit is clear.
pub open spec fn class_list(mask: usize) -> Seq<Seq<char>> {
    (if mask & CHARSET_UPPER != 0 { seq![upper_alphabet()] } else { Seq::empty() })
        + (if mask & CHARSET_LOWER != 0 { seq![lower_alphabet()] } else { Seq::empty() })
        + (if mask & CHARSET_NUMERIC != 0 { seq![numeric_alphabet()] } else { Seq::empty() })
        + (if mask & CHARSET_SPECIAL != 0 { seq![special_alphabet()] } else { Seq::empty() })
}

/// The alphabets held by a list of character classes.
pub open spec fn class_views(classes: Seq<Vec<char>>) -> Seq<Seq<char>> {
    classes.map_values(|c: Vec<char>| c@)
}

/// Builds the alphabets of the classes enabled in `mask`, in class order.
pub fn active_classes(mask: usize) -> (r: Vec<Vec<char>>)
    ensures
        class_views(r@) == class_list(mask),
{
    let mut r: Vec<Vec<char>> = Vec::new();
    if mask & CHARSET_UPPER != 0 {
        r.push(upper_chars());
    }
    if mask & CHARSET_LOWER != 0 {
        r.push(lower_chars());
    }
    if mask & CHARSET_NUMERIC != 0 {
        r.push(numeric_chars());
    }
    if mask & CHARSET_SPECIAL != 0 {
        r.push(special_chars());
    }
    assert(class_views(r@) =~= class_list(mask));
    r
}

/// Why a list of character classes cannot be drawn from.
#[derive(Debug, Clone, Copy, PartialEq, Eq)]
pub enum ConfigurationError {
    /// No class is enabled, so no class can be picked.
    NoClassEnabled,
    /// An enabled class has fewer than two characters, so the character
    /// index would be taken modulo zero.
    AlphabetTooShort,
}

/// Every class has at least two characters.
pub open spec fn alphabets_long_enough(classes: Seq<Seq<char>>) -> bool {
    forall|c: int| 0 <= c < classes.len() ==> #[trigger] classes[c].len() >= 2
}

/// Characters can be drawn from `classes`.
pub open spec fn classes_usable(classes: Seq<Seq<char>>) -> bool {
    classes.len() > 0 && alphabets_long_enough(classes)
}

/// The class picked by the generator output `o`: the output narrowed to
/// `usize`, modulo the number of classes.
pub open spec fn class_index(o: u128, count: nat) -> int {
    (o as usize) as int % (count as int)
}

/// The character picked within an alphabet of `len` characters by the output
/// `o`: modulo `len - 1`, so the last character is never picked.
pub open spec fn char_index(o: u128, len: nat) -> int {
    (o as usize) as int % (len - 1)
}

/// The character chosen by a pair of outputs: `o1` picks the class and `o2`
/// the character within it.
pub open spec fn pick_char(classes: Seq<Seq<char>>, o1: u128, o2: u128) -> char {
    let class = classes[class_index(o1, classes.len())];
    class[char_index(o2, class.len())]
}

/// The `n` characters spelled by consecutive pairs of outputs in `outs`.
pub open spec fn spell(classes: Seq<Seq<char>>, outs: Seq<u128>, n: nat) -> Seq<char> {
    Seq::new(n, |k: int| pick_char(classes, outs[2 * k], outs[2 * k + 1]))
}

/// The password of `length` characters drawn from `classes` by a generator
/// in state `s`: two outputs per character.
pub open spec fn password(classes: Seq<Seq<char>>, s: (Seq<u128>, nat), length: nat) -> Seq<char> {
    spell(classes, outputs(s, 2 * length), length)
}

/// `ch` is a character of some class that can be picked, that is, any but
/// the last of that class's alphabet.
pub open spec fn pickable(classes: Seq<Seq<char>>, ch: char) -> bool {
    exists|c: int, i: int|
        #![trigger classes[c][i]]
        0 <= c < classes.len() && 0 <= i < classes[c].len() - 1 && ch == classes[c][i]
}

/// Every character of `text` is pickable from `classes`.
pub open spec fn drawn_from(classes: Seq<Seq<char>>, text: Seq<char>) -> bool {
    forall|k: int| 0 <= k < text.len() ==> pickable(classes, #[trigger] text[k])
}

/// The characters spelled from usable classes come from those classes.
pub proof fn lemma_spell_drawn_from(classes: Seq<Seq<char>>, outs: Seq<u128>, n: nat)
    requires
        classes_usable(classes),
        outs.len() >= 2 * n,
    ensures
        drawn_from(classes, spell(classes, outs, n)),
{
    let text = spell(classes, outs, n);
    assert forall|k: int| 0 <= k < text.len() implies pickable(classes, #[trigger] text[k]) by {
        let c = class_index(outs[2 * k], classes.len());
        let i = char_index(outs[2 * k + 1], classes[c].len());
        assert(0 <= c < classes.len());
        assert(classes[c].len() >= 2);
        assert(0 <= i < classes[c].len() - 1);
        assert(text[k] == classes[c][i]);
    }
}

/// Relies on `String::push`: the character is appended at the end.
#[verifier::external_body]
fn push_char(s: &mut String, c: char)
    ensures
        final(s)@ == old(s)@.push(c),
{
    s.push(c)
}

/// Draws a password of `length` characters from `classes` with `rng`: for
/// each character one output picks the class and a second one picks the
/// character within it. Fails, without drawing, when no class is given or
/// some class has fewer than two characters.
pub fn generate(rng: &mut MT19937, classes: &Vec<Vec<char>>, length: usize) -> (r: Result<
    String,
    ConfigurationError,
>)
    requires
        old(rng).wf(),
    ensures
        final(rng).wf(),
        r == Err::<String, ConfigurationError>(ConfigurationError::NoClassEnabled) <==> classes@.len()
            == 0,
        r == Err::<String, ConfigurationError>(ConfigurationError::AlphabetTooShort) <==> (
        classes@.len() > 0 && !alphabets_long_enough(class_views(classes@))),
        r is Ok <==> classes_usable(class_views(classes@)),
        r is Err ==> final(rng)@ == old(rng)@,
        r is Ok ==> r->Ok_0@ == password(class_views(classes@), old(rng)@, length as nat)
            && final(rng)@ == advance(old(rng)@, 2 * length as nat),
        r is Ok ==> drawn_from(class_views(classes@), r->Ok_0@),
{
    let ghost cs = class_views(classes@);
    let ghost s0 = rng@;
    if classes.len() == 0 {
        return Err(ConfigurationError::NoClassEnabled);
    }
    let mut c: usize = 0;
    while c < classes.len()
        invariant
            c <= classes@.len(),
            rng.wf(),
            rng@ == s0,
            cs == class_views(classes@),
            forall|j: int| 0 <= j < c ==> #[trigger] cs[j].len() >= 2,
        decreases classes@.len() - c,
    {
        if classes[c].len() < 2 {
            assert(cs[c as int].len() < 2);
            return Err(ConfigurationError::AlphabetTooShort);
        }
        c = c + 1;
    }
    let mut out = String::new();
    let mut j: usize = 0;
    while j < length
        invariant
            j <= length,
            rng.wf(),
            cs == class_views(classes@),
            classes_usable(cs),
            rng@ == advance(s0, 2 * j as nat),
            out@ == spell(cs, outputs(s0, 2 * j as nat), j as nat),
        decreases length - j,
    {
        let ghost before = outputs(s0, 2 * j as nat);
        let o1 = rng.temper();
        let ci: usize = (#[verifier::truncate] (o1 as usize)) % classes.len();
        let class = &classes[ci];
        assert(cs[ci as int] == class@);
        let o2 = rng.temper();
        let ch = class[(#[verifier::truncate] (o2 as usize)) % (class.len() - 1)];
        proof {
            let k = 2 * j as nat;
            crate::mt::lemma_outputs_len(s0, k);
            assert(advance(s0, k + 1) == crate::mt::step_state(advance(s0, k)));
            assert(advance(s0, k + 2) == crate::mt::step_state(advance(s0, k + 1)));
            assert(outputs(s0, k + 1) == before.push(o1));
            assert(outputs(s0, k + 2) == before.push(o1).push(o2));
            assert(ch == pick_char(cs, o1, o2));
            let after = outputs(s0, k + 2);
            assert forall|i: int| 0 <= i < k implies after[i] == before[i] by {}
            assert(after[2 * j as int] == o1);
            assert(after[2 * j + 1] == o2);
            assert_seqs_equal!(spell(cs, after, (j + 1) as nat), spell(cs, before, j as nat).push(ch));
        }
        push_char(&mut out, ch);
        j = j + 1;
    }
    proof {
        crate::mt::lemma_outputs_len(s0, 2 * length as nat);
        lemma_spell_drawn_from(cs, outputs(s0, 2 * length as nat), length as nat);
    }
    Ok(out)
}

/// A mask with a recognised bit enables a class, and every built-in class
/// has at least two characters.
pub proof fn lemma_class_list_usable(mask: usize)
    requires
        mask & CHARSET_ALL != 0,
    ensures
        classes_usable(class_list(mask)),
{
    assert(mask & 0x0F != 0 ==> (mask & 0x01 != 0 || mask & 0x02 != 0 || mask & 0x04 != 0 || mask
        & 0x08 != 0)) by (bit_vector);
    assert(upper_alphabet().len() == 26);
    assert(lower_alphabet().len() == 26);
    assert(numeric_alphabet().len() == 10);
    assert(special_alphabet().len() == 24);
}

/// The password `passgen` gives for `seed`, `mask` and `length`: drawn from
/// the classes of `mask` by a generator seeded with `seed` once `WARM_UP`
/// outputs have been discarded.
pub open spec fn passgen_spec(seed: u128, mask: usize, length: nat) -> Seq<char> {
    password(class_list(mask), advance(initial_state(seed), WARM_UP as nat), length)
}

/// Generates a password of `length` characters from the classes enabled in
/// `charsets_enabled`, with a fresh generator seeded by `seed`.
pub fn passgen(seed: u128, charsets_enabled: usize, length: usize) -> (r: String)
    requires
        charsets_enabled & CHARSET_ALL != 0,
    ensures
        r@ == passgen_spec(seed, charsets_enabled, length as nat),
        r@.len() == length,
        drawn_from(class_list(charsets_enabled), r@),
{
    let mut rng = MT19937::new(seed);
    let ghost s0 = rng@;
    let mut k: usize = 0;
    while k < WARM_UP
        invariant
            k <= WARM_UP,
            rng.wf(),
            rng@ == advance(s0, k as nat),
        decreases WARM_UP - k,
    {
        rng.temper();
        k = k + 1;
    }
    let classes = active_classes(charsets_enabled);
    proof {
        lemma_class_list_usable(charsets_enabled);
    }
    generate(&mut rng, &classes, length).unwrap()
}

/// A password asked of zero length is empty, whatever the seed and the mask.
pub proof fn lemma_zero_length(seed: u128, mask: usize)
    ensures
        passgen_spec(seed, mask, 0) == Seq::<char>::empty(),
{
    assert(passgen_spec(seed, mask, 0) =~= Seq::<char>::empty());
}

/// With only the digit class enabled, no character of a password is `'0'`:
/// it is the last of the digit alphabet, which the index modulo
/// `len - 1` never reaches.
pub proof fn lemma_numeric_never_last(seed: u128, length: nat)
    ensures
        forall|k: int|
            0 <= k < length ==> #[trigger] passgen_spec(seed, CHARSET_NUMERIC, length)[k] != '0',
{
    assert(CHARSET_NUMERIC & CHARSET_UPPER == 0) by (bit_vector);
    assert(CHARSET_NUMERIC & CHARSET_LOWER == 0) by (bit_vector);
    assert(CHARSET_NUMERIC & CHARSET_NUMERIC != 0) by (bit_vector);
    assert(CHARSET_NUMERIC & CHARSET_SPECIAL == 0) by (bit_vector);
    assert(CHARSET_NUMERIC & CHARSET_ALL != 0) by (bit_vector);
    let classes = class_list(CHARSET_NUMERIC);
    assert(classes =~= seq![numeric_alphabet()]);
    lemma_class_list_usable(CHARSET_NUMERIC);
    let s = advance(initial_state(seed), WARM_UP as nat);
    crate::mt::lemma_outputs_len(s, 2 * length);
    lemma_spell_drawn_from(classes, outputs(s, 2 * length), length);
    let text = passgen_spec(seed, CHARSET_NUMERIC, length);
    assert forall|k: int| 0 <= k < length implies #[trigger] text[k] != '0' by {
        assert(pickable(classes, text[k]));
        let (c, i) = choose|c: int, i: int|
            #![trigger classes[c][i]]
            0 <= c < classes.len() && 0 <= i < classes[c].len() - 1 && text[k] == classes[c][i];
        assert(c == 0);
        assert(0 <= i < 9);
        assert(numeric_alphabet()[i] != '0');
    }
}

} // verus!
