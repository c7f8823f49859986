use passgen::mt::MT19937;

fn first_outputs(seed: u128, count: usize) -> Vec<u128> {
    let mut rng = MT19937::new(seed);
    (0..count).map(|_| rng.temper()).collect()
}

#[test]
fn outputs_match_reference_for_seed_zero() {
    let v = first_outputs(0, 626);
    assert_eq!(v[0], 109960999750151315107387412780358228937);
    assert_eq!(v[1], 127500789267527734557305610939276550719);
    assert_eq!(v[2], 277595541001908729141347360027806729888);
    assert_eq!(v[623], 250392248451319055257841197711399579001);
    assert_eq!(v[624], 57915966045895790586458227852231709594);
    assert_eq!(v[625], 260960624429939292744351155716031913779);
}

#[test]
fn outputs_match_reference_for_seed_one() {
    let v = first_outputs(1, 626);
    assert_eq!(v[0], 134723521331439344876228489797779305965);
    assert_eq!(v[1], 181096996993888566812653703590342503166);
    assert_eq!(v[2], 272114517337267027976165411523885489881);
    assert_eq!(v[623], 15249838113941822332740593489625738262);
    assert_eq!(v[624], 168882707578086187395234197390115089971);
    assert_eq!(v[625], 96695550340129616248850724425705036158);
}

#[test]
fn outputs_match_reference_for_seed_5489() {
    let v = first_outputs(5489, 626);
    assert_eq!(v[0], 122868960835606120551946734499456394701);
    assert_eq!(v[1], 94365043216620926225444942442901892179);
    assert_eq!(v[2], 204728756740473579499435265669995805560);
    assert_eq!(v[623], 33133440008091113917937607929062104604);
    assert_eq!(v[624], 58004618354243256791538922368846322703);
    assert_eq!(v[625], 331239994775187433992776947640878258363);
}

#[test]
fn seed_wider_than_64_bits_is_kept_whole() {
    let v = first_outputs((1u128 << 64) + 7, 626);
    assert_eq!(v[0], 261482061795659666657728784314387182142);
    assert_eq!(v[1], 15031827118646640588481732298375740404);
    assert_eq!(v[2], 7696061811500160388311010134396008861);
    assert_eq!(v[623], 306728706312882328522054861228139748711);
    assert_eq!(v[624], 319588689642202616245014475022013760854);
    assert_eq!(v[625], 165633377865056486432960029578443829173);
}

#[test]
fn largest_seed() {
    let v = first_outputs(u128::MAX, 626);
    assert_eq!(v[0], 296361719346398097536216214758066984070);
    assert_eq!(v[1], 45497945378576089157009742027897791017);
    assert_eq!(v[2], 212248342786047867340134840629804509916);
    assert_eq!(v[623], 177467842681555783937629734358119001735);
    assert_eq!(v[624], 108045748566971407580226240724321735015);
    assert_eq!(v[625], 251624392023244045216769629876903929520);
}

#[test]
fn same_seed_gives_same_sequence() {
    assert_eq!(first_outputs(2024, 1300), first_outputs(2024, 1300));
    assert_ne!(first_outputs(2024, 4), first_outputs(2025, 4));
}

#[test]
fn explicit_twist_resets_the_cursor() {
    let mut fresh = MT19937::new(5489);
    fresh.twist();
    assert_eq!(fresh.temper(), 58004618354243256791538922368846322703);

    let mut used = MT19937::new(5489);
    used.temper();
    used.temper();
    used.temper();
    used.twist();
    assert_eq!(used.temper(), 58004618354243256791538922368846322703);
}

#[test]
fn initialize_reseeds() {
    let mut rng = MT19937::new(99);
    assert_eq!(rng.temper(), 13914833827213173210162061389676446615);
    assert_eq!(rng.temper(), 30279528609417781259552888934166375237);
    rng.initialize(5489);
    assert_eq!(rng.temper(), 122868960835606120551946734499456394701);
}

#[test]
fn coinflip_reports_even_outputs() {
    let mut rng = MT19937::new(5489);
    let flips: Vec<bool> = (0..5).map(|_| rng.coinflip()).collect();
    assert_eq!(flips, vec![false, false, true, true, true]);
}

#[test]
fn coinflip_consumes_one_output() {
    let mut rng = MT19937::new(2024);
    for _ in 0..10 {
        rng.coinflip();
    }
    assert_eq!(rng.temper(), 282679417180218768740343246327275646833);
}
