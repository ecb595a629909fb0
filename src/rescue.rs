use crate::field::{fe_add, fe_mul, fe_pow, Felt, MODULUS};
use crate::opcodes::{op_code_of, op_imm_of, Operation};
use vstd::prelude::*;

verus! {

/// Width of the sponge state.
pub const STATE_WIDTH: usize = 4;

/// Lanes 0 and 1 absorb input; lanes 2 and 3 are the capacity.
pub const RATE_WIDTH: usize = 2;

pub const DIGEST_SIZE: usize = 2;

/// Rounds in one cycle of the sponge.
pub const NUM_ROUNDS: usize = 14;

/// Rows in one cycle: the rounds, then two rows that reset the capacity.
pub const CYCLE_LENGTH: usize = 16;

/// The S-box exponent.
pub const ALPHA: u128 = 3;

/// The inverse S-box exponent, (2p - 1) / 3 for the field prime p.
pub const INV_ALPHA: u128 = 226854911280625642308916371969163307691;

pub const MDS: [u128; 16] = [
    340282366920938463463374557953744960808,
    1080,
    340282366920938463463374557953744961147,
    40,
    340282366920938463463374557953744932377,
    42471,
    340282366920938463463374557953744947017,
    1210,
    340282366920938463463374557953744079447,
    1277640,
    340282366920938463463374557953744532108,
    33880,
    340282366920938463463374557953720263017,
    35708310,
    340282366920938463463374557953733025977,
    925771,
];

pub const INV_MDS: [u128; 16] = [
    18020639985667067681479625318803400939,
    119196285838491236328880430704594968577,
    231409255903369280423951003551679307334,
    311938552114349342492438056332412246225,
    245698978747161380010236204726851770228,
    32113671753878130773768090116517402309,
    284248318938217584166130208504515171073,
    118503764402619831976614612559605579465,
    42476948408512208745085164298752800413,
    283594571303717652525183978492772054516,
    94047455979774690913009073579656179991,
    260445758149872374743470899536308888155,
    12603050626701424572717576220509072651,
    250660673575506110946271793719013778251,
    113894235293153614657151429548304212092,
    303406774346515776750608316419662860081,
];

pub const ARK: [[u128; 8]; 16] = [
    [
        252629594110556276281235816992330349983,
        121163867507455621442731872354015891839,
        244623479936175870778515556108748234900,
        181999122442017949289616572388308120964,
        130035663054758320517176088024859935575,
        274932696133623013607933255959111946013,
        130096286077538976127585373664362805864,
        209506446014122131232133742654202790201,
    ],
    [
        51912929769931267810162308005565017268,
        202610584823002946089528994694473145326,
        295992101426532309592836871256175669136,
        313404555247438968545340310449654540090,
        137671644572045862038757754124537020379,
        29113322527929260506148183779738829778,
        98634637270536166954048957710629281939,
        90484051915535813802492401077197602516,
    ],
    [
        193753019093186599897082621380539177732,
        88328997664086495053801384396180288832,
        134379598544046716907663161480793367313,
        50911186425769400405474055284903795891,
        12945394282446072785093894845750344239,
        110650301505380365788620562912149942995,
        154214463184362737046953674082326221874,
        306646039504788072647764955304698381135,
    ],
    [
        279745705918489041552127329708931301079,
        111293612078035530300709391234153848359,
        18110020378502034462498434861690576309,
        41797883582559360517115865611622162330,
        333888808893608021579859508112201825908,
        291192643991850989562610634125476905625,
        115042354025120848770557866862388897952,
        281483497320099569269754505499721335457,
    ],
    [
        172898111753678285350206449646444309824,
        202661860135906394577472615378659980424,
        141885268042225970011312316000526746741,
        270195331267041521741794476882482499817,
        196457080224171120865903216527675657315,
        56730777565482395039564396246195716949,
        4886253806084919544862202000090732791,
        147384194551383352824518757380733021990,
    ],
    [
        119476237236248181092343711369608370324,
        182869361251406039022577235058473348729,
        45308522364899994411952744852450066909,
        15438528253368638146901598290564135576,
        130060283207960095436997328133261743365,
        83953475955438079154228277940680487556,
        328659226769709797512044291035930357326,
        228749522131871685132212950281473676382,
    ],
    [
        46194972462682851176957413491161426658,
        296333983305826854863835978241833143471,
        138957733159616849361016139528307260698,
        67842086763518777676559492559456199109,
        45580040156133202522383315452912604930,
        67567837934606680937620346425373752595,
        202860989528104560171546683198384659325,
        22630500510153322451285114937258973361,
    ],
    [
        324160761097464842200838878419866223614,
        338466547889555546143667391979278153877,
        189171173535649401433078628567098769571,
        162173266902020502126600904559755837464,
        136209703129442038834374731074825683052,
        61998071517031804812562190829480056772,
        307309080039351604461536918194634835054,
        26708622949278137915061761772299784349,
    ],
    [
        129516553661717764361826568456881002617,
        224023580754958002183324313900177991825,
        17590440203644538688189654586240082513,
        135610063062379124269847491297867667710,
        146865534517067293442442506551295645352,
        238139104484181583196227119098779158429,
        39300761479713744892853256947725570060,
        54114440355764484955231402374312070440,
    ],
    [
        222758070305343916663075833184045878425,
        323840793618712078836672915700599856701,
        103586087979277053032666296091805459741,
        160263698024385270625527195046420579470,
        76620453913654705501329735586535761337,
        117793948142462197480091377165008040465,
        86998218841589258723143213495722487114,
        203188618662906890442620821687773659689,
    ],
    [
        313098786815741054633864043424353402357,
        133085673687338880872979866135939079867,
        219888424885634764555580944265544343421,
        5893221169005427793512575133564978746,
        123830602624063632344313821515642988189,
        99030942908036387138287682010525589136,
        181549003357535890945363082242256699137,
        152424978799328476472358562493335008209,
    ],
    [
        274481943862544603168725464029979191673,
        4975004592976331754728718693838357226,
        101850445399221640701542169338886750079,
        230325699922192981509673754024218912397,
        50419227750575087142720761582056939006,
        112444234528764731925178653200320603078,
        312169855609816651638877239277948636598,
        204255114617024487729019111502542629940,
    ],
    [
        95797476952346525817251811755749179939,
        306977388944722094681694167558392710189,
        300754874465668732709232449646112602172,
        25567836410351071106804347269705784680,
        129659188855548935155840545784705385753,
        228441586459539470069565041053012869566,
        178382533299631576605259357906020320778,
        274458637266680353971597477639962034316,
    ],
    [
        280059913840028448065185235205261648486,
        246537412674731137211182698562269717969,
        259930078572522349821084822750913159564,
        186061633995391650657311511040160727356,
        179777566992900315528995607912777709520,
        209753365793154515863736129686836743468,
        270445008049478596978645420017585428243,
        70998387591825316724846035292940615733,
    ],
    [
        0,
        0,
        0,
        0,
        0,
        0,
        0,
        0,
    ],
    [
        0,
        0,
        0,
        0,
        0,
        0,
        0,
        0,
    ],
];

/// Felts as the integers they stand for.
pub open spec fn felts(v: Seq<Felt>) -> Seq<int> {
    v.map_values(|f: Felt| f@)
}

/// Every felt is reduced.
pub open spec fn all_wf(v: Seq<Felt>) -> bool {
    forall|i: int| 0 <= i < v.len() ==> #[trigger] v[i].wf()
}

/// Round constant `i` of round `r`.
pub open spec fn ark(r: int, i: int) -> int {
    ARK[r][i] as int % (MODULUS as int)
}

/// The S-box on each lane.
pub open spec fn sbox(s: Seq<int>) -> Seq<int> {
    Seq::new(4, |i: int| fe_pow(s[i], ALPHA as nat))
}

/// The inverse S-box on each lane.
pub open spec fn inv_sbox(s: Seq<int>) -> Seq<int> {
    Seq::new(4, |i: int| fe_pow(s[i], INV_ALPHA as nat))
}

/// Sum in the field of `m[4 row + j] * s[j]` for `j < n`.
pub open spec fn mat_row(m: Seq<int>, s: Seq<int>, row: int, n: nat) -> int
    decreases n,
{
    if n == 0 {
        0
    } else {
        fe_add(mat_row(m, s, row, (n - 1) as nat), fe_mul(m[4 * row + n - 1], s[n - 1]))
    }
}

/// A 4x4 matrix, given row by row, applied to the state.
pub open spec fn mat_apply(m: Seq<int>, s: Seq<int>) -> Seq<int> {
    Seq::new(4, |i: int| mat_row(m, s, i, 4))
}

pub open spec fn mds_matrix() -> Seq<int> {
    MDS@.map_values(|x: u128| x as int % (MODULUS as int))
}

pub open spec fn inv_mds_matrix() -> Seq<int> {
    INV_MDS@.map_values(|x: u128| x as int % (MODULUS as int))
}

/// Adds round constants `offset..offset + 4` of round `r` to the state.
pub open spec fn add_ark(s: Seq<int>, r: int, offset: int) -> Seq<int> {
    Seq::new(4, |i: int| fe_add(s[i], ark(r, offset + i)))
}

/// The first half of a round: S-box, MDS, constants, then the operation
/// injected into the rate lanes.
pub open spec fn half_round(s: Seq<int>, code: int, value: int, r: int) -> Seq<int> {
    let t = add_ark(mat_apply(mds_matrix(), sbox(s)), r, 0);
    t.update(0, fe_add(t[0], code)).update(1, fe_add(t[1], value))
}

/// One Rescue-Prime round with the operation `(code, value)` absorbed.
pub open spec fn rescue_round(s: Seq<int>, code: int, value: int, r: int) -> Seq<int> {
    add_ark(mat_apply(mds_matrix(), inv_sbox(half_round(s, code, value, r))), r, 4)
}

/// What the sponge does on row `step`: a round on the first rows of a
/// cycle, a capacity reset on the last two.
pub open spec fn sponge_step(s: Seq<int>, code: int, value: int, step: int) -> Seq<int> {
    let pos = step % (CYCLE_LENGTH as int);
    if pos < NUM_ROUNDS as int {
        rescue_round(s, code, value, pos)
    } else {
        seq![s[0], s[1], 0, 0]
    }
}

/// The sponge state after absorbing `ops` from the zero state.
pub open spec fn sponge_absorb(ops: Seq<Operation>) -> Seq<int>
    decreases ops.len(),
{
    if ops.len() == 0 {
        seq![0, 0, 0, 0]
    } else {
        let last = ops.last();
        sponge_step(
            sponge_absorb(ops.drop_last()),
            op_code_of(last) as int,
            op_imm_of(last) as int,
            ops.len() - 1,
        )
    }
}


/// The S-box on every lane.
pub fn apply_sbox(state: &mut Vec<Felt>)
    requires
        old(state).len() == STATE_WIDTH,
        all_wf(old(state)@),
    ensures
        final(state).len() == STATE_WIDTH,
        all_wf(final(state)@),
        felts(final(state)@) == sbox(felts(old(state)@)),
{
    apply_power(state, ALPHA);
}

/// The inverse S-box on every lane.
pub fn apply_inv_sbox(state: &mut Vec<Felt>)
    requires
        old(state).len() == STATE_WIDTH,
        all_wf(old(state)@),
    ensures
        final(state).len() == STATE_WIDTH,
        all_wf(final(state)@),
        felts(final(state)@) == inv_sbox(felts(old(state)@)),
{
    apply_power(state, INV_ALPHA);
}

fn apply_power(state: &mut Vec<Felt>, power: u128)
    requires
        old(state).len() == STATE_WIDTH,
        all_wf(old(state)@),
    ensures
        final(state).len() == STATE_WIDTH,
        all_wf(final(state)@),
        felts(final(state)@) == Seq::new(4, |i: int| fe_pow(old(state)@[i]@, power as nat)),
{
    let ghost s0 = state@;
    let mut i: usize = 0;
    while i < STATE_WIDTH
        invariant
            state.len() == STATE_WIDTH,
            s0.len() == STATE_WIDTH,
            all_wf(state@),
            all_wf(s0),
            0 <= i <= STATE_WIDTH,
            forall|j: int| 0 <= j < i ==> #[trigger] state@[j]@ == fe_pow(s0[j]@, power as nat),
            forall|j: int| i <= j < STATE_WIDTH ==> #[trigger] state@[j] == s0[j],
        decreases STATE_WIDTH - i,
    {
        let x = state[i].exp(power);
        state.set(i, x);
        i += 1;
    }
    assert(felts(state@) =~= Seq::new(4, |i: int| fe_pow(s0[i]@, power as nat)));
}

/// Row `row` of the matrix `m` applied to `s`.
fn mat_row_exec(m: &[u128; 16], s: &Vec<Felt>, row: usize) -> (r: Felt)
    requires
        s.len() == STATE_WIDTH,
        all_wf(s@),
        row < 4,
    ensures
        r.wf(),
        r@ == mat_row(m@.map_values(|x: u128| x as int % (MODULUS as int)), felts(s@), row as int, 4),
{
    let ghost mm = m@.map_values(|x: u128| x as int % (MODULUS as int));
    let mut acc = Felt::zero();
    let mut j: usize = 0;
    while j < STATE_WIDTH
        invariant
            s.len() == STATE_WIDTH,
            all_wf(s@),
            row < 4,
            0 <= j <= STATE_WIDTH,
            acc.wf(),
            mm == m@.map_values(|x: u128| x as int % (MODULUS as int)),
            acc@ == mat_row(mm, felts(s@), row as int, j as nat),
        decreases STATE_WIDTH - j,
    {
        let c = Felt::new(m[4 * row + j]);
        assert(s@[j as int].wf());
        acc = acc.add(c.mul(s[j]));
        j += 1;
    }
    acc
}

fn apply_matrix(m: &[u128; 16], state: &mut Vec<Felt>)
    requires
        old(state).len() == STATE_WIDTH,
        all_wf(old(state)@),
    ensures
        final(state).len() == STATE_WIDTH,
        all_wf(final(state)@),
        felts(final(state)@) == mat_apply(m@.map_values(|x: u128| x as int % (MODULUS as int)), felts(old(state)@)),
{
    let ghost mm = m@.map_values(|x: u128| x as int % (MODULUS as int));
    let mut result: Vec<Felt> = Vec::new();
    let mut i: usize = 0;
    while i < STATE_WIDTH
        invariant
            state.len() == STATE_WIDTH,
            all_wf(state@),
            0 <= i <= STATE_WIDTH,
            result.len() == i,
            all_wf(result@),
            mm == m@.map_values(|x: u128| x as int % (MODULUS as int)),
            forall|k: int| 0 <= k < i ==> #[trigger] result@[k]@ == mat_row(mm, felts(state@), k, 4),
        decreases STATE_WIDTH - i,
    {
        let v = mat_row_exec(m, state, i);
        result.push(v);
        i += 1;
    }
    assert(felts(result@) =~= mat_apply(mm, felts(state@)));
    *state = result;
}

/// Multiplies the state by the MDS matrix.
pub fn apply_mds(state: &mut Vec<Felt>)
    requires
        old(state).len() == STATE_WIDTH,
        all_wf(old(state)@),
    ensures
        final(state).len() == STATE_WIDTH,
        all_wf(final(state)@),
        felts(final(state)@) == mat_apply(mds_matrix(), felts(old(state)@)),
{
    apply_matrix(&MDS, state);
}

/// Multiplies the state by the inverse of the MDS matrix.
pub fn apply_inv_mds(state: &mut Vec<Felt>)
    requires
        old(state).len() == STATE_WIDTH,
        all_wf(old(state)@),
    ensures
        final(state).len() == STATE_WIDTH,
        all_wf(final(state)@),
        felts(final(state)@) == mat_apply(inv_mds_matrix(), felts(old(state)@)),
{
    apply_matrix(&INV_MDS, state);
}

/// Adds round constants `offset..offset + 4` of round `round` to the state.
pub fn add_constants(state: &mut Vec<Felt>, round: usize, offset: usize)
    requires
        old(state).len() == STATE_WIDTH,
        all_wf(old(state)@),
        round < CYCLE_LENGTH,
        offset == 0 || offset == STATE_WIDTH,
    ensures
        final(state).len() == STATE_WIDTH,
        all_wf(final(state)@),
        felts(final(state)@) == add_ark(felts(old(state)@), round as int, offset as int),
{
    let ghost s0 = state@;
    let mut i: usize = 0;
    while i < STATE_WIDTH
        invariant
            state.len() == STATE_WIDTH,
            s0.len() == STATE_WIDTH,
            all_wf(state@),
            all_wf(s0),
            round < CYCLE_LENGTH,
            offset == 0 || offset == STATE_WIDTH,
            0 <= i <= STATE_WIDTH,
            forall|j: int| 0 <= j < i ==> #[trigger] state@[j]@ == fe_add(s0[j]@, ark(round as int, offset + j)),
            forall|j: int| i <= j < STATE_WIDTH ==> #[trigger] state@[j] == s0[j],
        decreases STATE_WIDTH - i,
    {
        let c = Felt::new(ARK[round][offset + i]);
        let x = state[i].add(c);
        state.set(i, x);
        i += 1;
    }
    assert(felts(state@) =~= add_ark(felts(s0), round as int, offset as int));
}

/// One Rescue-Prime round of the cycle position `round`, with the operation
/// `(op_code, op_value)` injected into the rate lanes between the two halves.
pub fn apply_round(state: &mut Vec<Felt>, op_code: u8, op_value: u8, round: usize)
    requires
        old(state).len() == STATE_WIDTH,
        all_wf(old(state)@),
        round < CYCLE_LENGTH,
    ensures
        final(state).len() == STATE_WIDTH,
        all_wf(final(state)@),
        felts(final(state)@) == rescue_round(felts(old(state)@), op_code as int, op_value as int, round as int),
{
    let ghost s0 = felts(state@);
    apply_sbox(state);
    apply_mds(state);
    add_constants(state, round, 0);
    let a = state[0].add(Felt::from_u8(op_code));
    state.set(0, a);
    let b = state[1].add(Felt::from_u8(op_value));
    state.set(1, b);
    assert(felts(state@) =~= half_round(s0, op_code as int, op_value as int, round as int));
    apply_inv_sbox(state);
    apply_mds(state);
    add_constants(state, round, STATE_WIDTH);
}

/// Round constants arranged by column: entry `j` holds constant `j` of every
/// position of the cycle.
pub fn get_round_constants() -> (r: Vec<Vec<Felt>>)
    ensures
        r.len() == 2 * STATE_WIDTH,
        forall|j: int| 0 <= j < 2 * STATE_WIDTH ==> (#[trigger] r@[j]).len() == CYCLE_LENGTH,
        forall|j: int, i: int|
            0 <= j < 2 * STATE_WIDTH && 0 <= i < CYCLE_LENGTH ==> (#[trigger] r@[j]@[i]).wf()
                && r@[j]@[i]@ == ark(i, j),
{
    let mut r: Vec<Vec<Felt>> = Vec::new();
    let mut j: usize = 0;
    while j < 2 * STATE_WIDTH
        invariant
            0 <= j <= 2 * STATE_WIDTH,
            r.len() == j,
            forall|jj: int| 0 <= jj < j ==> (#[trigger] r@[jj]).len() == CYCLE_LENGTH,
            forall|jj: int, i: int|
                0 <= jj < j && 0 <= i < CYCLE_LENGTH ==> (#[trigger] r@[jj]@[i]).wf()
                    && r@[jj]@[i]@ == ark(i, jj),
        decreases 2 * STATE_WIDTH - j,
    {
        let mut col: Vec<Felt> = Vec::new();
        let mut i: usize = 0;
        while i < CYCLE_LENGTH
            invariant
                0 <= j < 2 * STATE_WIDTH,
                0 <= i <= CYCLE_LENGTH,
                col.len() == i,
                forall|k: int| 0 <= k < i ==> (#[trigger] col@[k]).wf() && col@[k]@ == ark(k, j as int),
            decreases CYCLE_LENGTH - i,
        {
            col.push(Felt::new(ARK[i][j]));
            i += 1;
        }
        r.push(col);
        j += 1;
    }
    r
}


/// A program commitment: the rate lanes of the sponge at the end.
#[derive(Clone, Copy, PartialEq, Eq, Structural, Debug)]
pub struct Hash {
    pub lane0: Felt,
    pub lane1: Felt,
}

impl Hash {
    pub fn new(v1: Felt, v2: Felt) -> (r: Hash)
        ensures
            r.lane0 == v1,
            r.lane1 == v2,
    {
        Hash { lane0: v1, lane1: v2 }
    }

    /// The two lanes as 16 little-endian bytes each.
    pub fn to_bytes(&self) -> (r: Vec<u8>)
        ensures
            r@ == le_bytes(self.lane0.value as nat, 16) + le_bytes(self.lane1.value as nat, 16),
    {
        let mut r: Vec<u8> = Vec::new();
        push_le_bytes(&mut r, self.lane0.value);
        push_le_bytes(&mut r, self.lane1.value);
        r
    }

    pub fn to_elements(&self) -> (r: [Felt; 2])
        ensures
            r@ == seq![self.lane0, self.lane1],
    {
        [self.lane0, self.lane1]
    }
}

/// The `n` low bytes of `v`, least significant first.
pub open spec fn le_bytes(v: nat, n: nat) -> Seq<u8>
    decreases n,
{
    if n == 0 {
        seq![]
    } else {
        seq![(v % 256) as u8] + le_bytes(v / 256, (n - 1) as nat)
    }
}

fn push_le_bytes(out: &mut Vec<u8>, v: u128)
    ensures
        final(out)@ == old(out)@ + le_bytes(v as nat, 16),
{
    let ghost start = out@;
    let mut x: u128 = v;
    let mut i: usize = 0;
    while i < 16
        invariant
            0 <= i <= 16,
            out@ + le_bytes(x as nat, (16 - i) as nat) == start + le_bytes(v as nat, 16),
        decreases 16 - i,
    {
        let ghost before = out@;
        out.push((x % 256) as u8);
        proof {
            assert(le_bytes(x as nat, (16 - i) as nat) == seq![(x % 256) as u8] + le_bytes(
                (x / 256) as nat,
                (16 - i - 1) as nat,
            ));
            assert(out@ + le_bytes((x / 256) as nat, (16 - i - 1) as nat) =~= before + le_bytes(
                x as nat,
                (16 - i) as nat,
            ));
        }
        x = x / 256;
        i += 1;
    }
    assert(out@ + le_bytes(x as nat, 0) =~= out@);
}

/// The sponge that commits to a program: one round per operation, with the
/// capacity reset on the last two rows of every cycle.
pub struct Rescue128 {
    pub state: Vec<Felt>,
    pub steps: usize,
}

impl Rescue128 {
    pub open spec fn wf(&self) -> bool {
        self.state.len() == STATE_WIDTH && all_wf(self.state@)
    }

    pub fn new() -> (r: Rescue128)
        ensures
            r.wf(),
            r.steps == 0,
            felts(r.state@) == seq![0int, 0, 0, 0],
    {
        let state = vec![Felt::zero(), Felt::zero(), Felt::zero(), Felt::zero()];
        let r = Rescue128 { state, steps: 0 };
        assert(felts(r.state@) =~= seq![0int, 0, 0, 0]);
        r
    }

    pub fn state(&self) -> (r: Vec<Felt>)
        requires
            self.wf(),
        ensures
            r@ == self.state@,
    {
        self.state.clone()
    }

    /// Absorbs one operation on the next row of the cycle.
    pub fn update(&mut self, op_code: u8, op_value: u8)
        requires
            old(self).wf(),
            old(self).steps < usize::MAX,
        ensures
            final(self).wf(),
            final(self).steps == old(self).steps + 1,
            felts(final(self).state@) == sponge_step(
                felts(old(self).state@),
                op_code as int,
                op_value as int,
                old(self).steps as int,
            ),
    {
        let pos = self.steps % CYCLE_LENGTH;
        if pos < NUM_ROUNDS {
            apply_round(&mut self.state, op_code, op_value, pos);
        } else {
            let ghost s0 = felts(self.state@);
            self.state.set(2, Felt::zero());
            self.state.set(3, Felt::zero());
            assert(felts(self.state@) =~= seq![s0[0], s0[1], 0, 0]);
        }
        self.steps = self.steps + 1;
    }

    /// The rate lanes.
    pub fn hash(&self) -> (r: Hash)
        requires
            self.wf(),
        ensures
            r.lane0 == self.state@[0],
            r.lane1 == self.state@[1],
    {
        Hash { lane0: self.state[0], lane1: self.state[1] }
    }

    /// The commitment to a sequence of operations.
    pub fn digest(ops: &Vec<Operation>) -> (r: Hash)
        requires
            ops.len() < usize::MAX,
        ensures
            r.lane0.wf(),
            r.lane1.wf(),
            r.lane0@ == sponge_absorb(ops@)[0],
            r.lane1@ == sponge_absorb(ops@)[1],
    {
        let mut sponge = Rescue128::new();
        let mut i: usize = 0;
        while i < ops.len()
            invariant
                ops.len() < usize::MAX,
                0 <= i <= ops.len(),
                sponge.wf(),
                sponge.steps == i,
                felts(sponge.state@) == sponge_absorb(ops@.subrange(0, i as int)),
            decreases ops.len() - i,
        {
            let op = ops[i];
            sponge.update(op.code(), op.value());
            assert(ops@.subrange(0, i + 1).drop_last() =~= ops@.subrange(0, i as int));
            i += 1;
        }
        assert(ops@.subrange(0, ops.len() as int) =~= ops@);
        sponge.hash()
    }
}

} // verus!
