//! Zobrist hashing keys. The tables are the splitmix64 streams of four fixed
//! seeds, written out so hashes are stable across builds.

use vstd::prelude::*;
use vstd::wrapping::u64_specs::{wrapping_add, wrapping_mul};

verus! {

pub const PIECE_SEED: u64 = 0xC1E5_5EED_0000_0001;
pub const SIDE_TO_MOVE_SEED: u64 = 0xC1E5_5EED_0000_0002;
pub const CASTLING_SEED: u64 = 0xC1E5_5EED_0000_0003;
pub const EN_PASSANT_SEED: u64 = 0xC1E5_5EED_0000_0004;

/// One splitmix64 step: (next state, output).
pub open spec fn splitmix(state: u64) -> (u64, u64) {
    let s = wrapping_add(state, 0x9E37_79B9_7F4A_7C15u64);
    let z1 = wrapping_mul(s ^ (s >> 30u64), 0xBF58_476D_1CE4_E5B9u64);
    let z2 = wrapping_mul(z1 ^ (z1 >> 27u64), 0x94D0_49BB_1331_11EBu64);
    (s, z2 ^ (z2 >> 31u64))
}

/// The generator state after `i` steps from `seed`.
pub open spec fn state_after(seed: u64, i: nat) -> u64
    decreases i,
{
    if i == 0 {
        seed
    } else {
        splitmix(state_after(seed, (i - 1) as nat)).0
    }
}

/// The `i`-th key of the stream started at `seed`.
pub open spec fn stream_key(seed: u64, i: nat) -> u64 {
    splitmix(state_after(seed, i)).1
}

/// splitmix64: tiny and well-distributed.
pub fn splitmix64(state: u64) -> (r: (u64, u64))
    ensures
        r == splitmix(state),
{
    let state = state.wrapping_add(0x9E37_79B9_7F4A_7C15);
    let mut z = state;
    z = (z ^ (z >> 30)).wrapping_mul(0xBF58_476D_1CE4_E5B9);
    z = (z ^ (z >> 27)).wrapping_mul(0x94D0_49BB_1331_11EB);
    (state, z ^ (z >> 31))
}

/// The first `n` keys of the stream started at `seed`.
pub fn key_table(seed: u64, n: usize) -> (table: Vec<u64>)
    ensures
        table@ == Seq::new(n as nat, |i: int| stream_key(seed, i as nat)),
{
    let mut table: Vec<u64> = Vec::new();
    let mut state = seed;
    let mut i: usize = 0;
    while i < n
        invariant
            i <= n,
            state == state_after(seed, i as nat),
            table@ == Seq::new(i as nat, |j: int| stream_key(seed, j as nat)),
        decreases n - i,
    {
        let (next, value) = splitmix64(state);
        state = next;
        table.push(value);
        i = i + 1;
        assert(table@ =~= Seq::new(i as nat, |j: int| stream_key(seed, j as nat)));
    }
    table
}

pub proof fn lemma_xor(a: u64, b: u64, c: u64)
    ensures
        a ^ b == b ^ a,
        (a ^ b) ^ c == a ^ (b ^ c),
        a ^ a == 0,
        a ^ 0 == a,
{
    assert(a ^ b == b ^ a && (a ^ b) ^ c == a ^ (b ^ c) && a ^ a == 0 && a ^ 0 == a)
        by (bit_vector);
}

pub const PIECE_KEYS: [u64; 768] = [
    0x75d7a496b7548085, 0xc7a9af1e7f34ad5d, 0xee8b7f397429e6d9, 0xb1dd0105ff210b87,
    0x7161af9c4da8686d, 0xbe4abdfd50a7b30f, 0x04710b4ddcaaecbd, 0x6ac95558b3084da5,
    0x2115a7aaaddc74b0, 0xc073482085597b62, 0x0fd9df170cd84df3, 0xaf00093ff5a4ab56,
    0x077e2835bc8362e9, 0xe6f5d3e1780f7239, 0x988ff9ce07dfd1f6, 0x0877fc414d4b4b05,
    0xe6fb806a25c680d4, 0x856954d2660d3e0e, 0xfa2cd2f300351fcc, 0x2cfd42577859ecf0,
    0x7219cd380fa579d1, 0x85a3a6ade2902db9, 0x8a0662629e032573, 0xd0bffc22884e8d31,
    0x4b15ab33353aeee7, 0x55c1176ad802d933, 0x4950c54f1d55797a, 0xd976405573403866,
    0xfa3b5e33bb7bbf2a, 0x4ead38524e6a65f8, 0x35e18efcc288e53d, 0xf5a6c89730882676,
    0xbbf726ed36ddce15, 0x66d91b92e948718f, 0x982480ca9f82c055, 0x545b2ecde86ac9f7,
    0x6df6d26f315c4e73, 0x87b822503f04fde2, 0x6081f334dcc05a6a, 0x08d341e3a81c61e8,
    0x9986e845ef4e3874, 0x1fa534da623f6565, 0x9670ddbb345a3cf8, 0xa659666bda424663,
    0x34820126af556e14, 0x8db7fbcf3bf88016, 0x94d3fd35a3aa8bf6, 0xb38e001fe3fedd77,
    0x160fd72832ec2a39, 0x7462ea18b335bf2a, 0x5c0508d97efc8e0b, 0x685951e433c692b6,
    0x8050c667720299c6, 0x639aca18284658ef, 0x6cf2587e39fec22f, 0x92b7966b5bf7ec95,
    0x80c1b7ed5c9a68bf, 0xa17f72a1bcb3762b, 0xae9d69a8d5d546f9, 0xf485bf048a2a139f,
    0xcdae7d878abb9bbd, 0x12a1212743c40ed7, 0xfa7b559eafe9c20b, 0x30d423adbcc82d95,
    0x4e73eb7d888ef346, 0x755f1b88a3321ed5, 0xdfb9844c779a6268, 0x32e90aa72371fd1e,
    0x47de45aad92de2bf, 0x4d0efb199ccfe538, 0xcc4c6444604c7bf4, 0xad1dffca9c491c3f,
    0x391e8e3a8bdcf204, 0x9d442f9b19cb482d, 0x7fdcf0f50c919a7b, 0x505191e1bdb5ddd4,
    0xa372c92e7f6102a0, 0x16b51a443888153b, 0xc01e6f811eca3b40, 0xf469c1505a81dd46,
    0x3288cb02feebbe5b, 0x033523f9d3d632ff, 0xd0975f1f1f3890d1, 0x8dbc48fb63b97205,
    0xf8518a05d37a77fe, 0x2760283982126607, 0xe571401d463e0683, 0x6e8eeeb876f14b48,
    0x68b187657d2cb37c, 0x49c32fb28d806354, 0xdc6d1c4b086985ae, 0xa1b54984518b1e3c,
    0x2f90a7cf0a98ce5d, 0x008417046654cea1, 0x266b8577ef94bd8b, 0x0979e6f7e1a415df,
    0xbb81dfae803b3024, 0x40305981b4037f3c, 0x41b32d78e1bd4f2d, 0xbc723b4803f9cc72,
    0x7ab3f7db9131ee0d, 0xcbbc3114c2d12e09, 0x773bcc20ba7b31b2, 0x52b45e3c7fb56b51,
    0x1ce66d3953439867, 0x012592a58252b5f4, 0x4051473b975d7ece, 0xf37a52c062620857,
    0x8f42e18827ccdbe1, 0xd95f47760b6d59f0, 0x0f9b9638898c06bf, 0xd8ded957a4d4ba07,
    0xc0b1cb2eb6a312ec, 0x84ea7672df2fee05, 0x1157a464a44a35b0, 0x9dd3fb1090a0ffac,
    0xf2b6bc4d9d09e2cb, 0xe6fb49ef450eb7ce, 0x357ff2a73548102c, 0x21d87b374b858996,
    0xb6d8ce8f218de9b4, 0x0bddbafd87a73455, 0x2a5f8d9451727c7a, 0xcd83da9eb8972bfa,
    0x44ef12b4e5378fab, 0x0bd598a59277a919, 0xa350dbf469d9277b, 0x38fecbbfebb65bcd,
    0x624379afde8b47ab, 0x7f2f8a6aa730d097, 0x6c905510ffbd51ca, 0x481b0919f6951782,
    0x93d4ed14da450009, 0x3c27d86c3f41c408, 0x6e496244d5dbf8e2, 0xc7571ebc972fbab3,
    0x3ff16c000f85c991, 0x1faa36928b60a527, 0x08cd9b7c7e0a7f3f, 0xae45b6cb23d5a959,
    0xf8d126314b4e3a51, 0x715c5ab5f016097d, 0x296c1c17b5375073, 0x2e251039e34dc137,
    0x6a8f06ba4943a62d, 0x7e90ae495b51ca31, 0x28f2d41b3fc75818, 0x6ba825a6ace63b92,
    0x4f9e63a4ea46a43a, 0xe0f74f86a167f04a, 0xa6a5255c1fd98a11, 0xc55299f998d04964,
    0x525097d1fdb23cb8, 0xffcc022169c62b28, 0x526bd960e8fdcb92, 0x1b0fb19bd98f0691,
    0xd5e4af9980e1cc8a, 0xcb0e6d72067b3bb0, 0x05c3c3de30c9d74e, 0xc3d771b1a8fb1c1a,
    0x53098221a54e76ea, 0x5c7c67e9e563ad51, 0x351f734b4fe9a0dd, 0xf19e64018302294c,
    0xad17a15fff04727f, 0xaf38ba55d62fb9a5, 0xe9c4f0e50210e083, 0x0179b5d02a2fa320,
    0x35eee71ec32764b3, 0x5bd5e473664c48be, 0x00c157f16f00dec5, 0x2119d414dbca6345,
    0x6fa0f1c06962466f, 0x58d8ce5d8e3f0d59, 0x8d1dec94a3fbed2c, 0x656963299dc85582,
    0x8a46753d5c59064e, 0x7b9877f6648a177d, 0x8a97e1cbfab8129f, 0x00cf8a4f4b4461e0,
    0x7b7583d7954a6318, 0xc760cde291e61acf, 0xa2618803e52db53c, 0x4c086024b607f39d,
    0xc90719101786845b, 0x66cda7bbfae18726, 0xaf26c1a12cc4d20f, 0x195c34a507a70d64,
    0x54407418b18e2b90, 0x458029f225a281d4, 0xec260e90c92a857e, 0xfdf0d541609925df,
    0x1c66b9595e59161f, 0x7ed3e05048f9113e, 0xcc40226d19a1b10d, 0xfa743d0c55a4f438,
    0xa1a36e3bd86e08d1, 0x8f01d7e9b8826b45, 0xd1fed9d1808eb993, 0x06950095e15bd649,
    0x0ddc5e147994ab75, 0x29d2ef62d71f5372, 0x42c70b0ed00fbdf5, 0xb1e408b53a6eddc0,
    0x76f2ab36886647c9, 0xbea66c11e88b1a50, 0xf3c4f044958b1d99, 0xf02528d11a6ccc35,
    0x4ef08c25c6a68043, 0x9542aff09ce95c02, 0xfc3f2f910423fab6, 0xe487fbd30ee31a2e,
    0x9ebdca9ceb3911af, 0x469e0d1a97cf27d4, 0xe9840a0c411c7301, 0xe242d84e407aca44,
    0x3f8f1a3b67e2633b, 0x9393833e9b3db0cd, 0x5b51162868b5f300, 0xb4f302e8d04acb7b,
    0x18b954318891e908, 0x7d65c3e457435b46, 0xd615ba88d1d6bf11, 0x88409ffbda14f588,
    0x073a27832c02c085, 0xcce445214fb3dadf, 0x7e4f128fb1ac0b4f, 0x8ea02dd0108cb55e,
    0x76b3c6a3d76b6b73, 0x7142c91c5fa12a40, 0x801aaa678a2dc4c9, 0x7de27ad4bb0b1056,
    0x9b2896e276d71437, 0x781313eaf398994c, 0xb82c17299b1c0a76, 0xdc493b1a9759ce66,
    0xa12e190178606b21, 0x2fd09d205659be08, 0x08d7c419ecf6d793, 0xf59496b74f4f896e,
    0xb5464d652753ad12, 0xf173e7063a734d15, 0xef7e22ecfa33e3e8, 0xfe2f27e7a84c1968,
    0x0aa419266f1b60b0, 0x28c7d29593d25a0d, 0x74f64b181c51d232, 0x3876417fad40ad9b,
    0x0c8d47ee66750196, 0xdf652ec7b3c61888, 0x63df2a0a6ec46a35, 0x5885c1be2e51cadd,
    0xa8e7e70412bc41fb, 0x816ccce42f1c1fc5, 0x5fb84c835ce7c344, 0xadd2cae1a25f6eba,
    0x1a4047f32900c343, 0x46a07d6f8519b392, 0x85301d20627e504c, 0xf96b934caa2622be,
    0x721d43c101d11104, 0xa72133536a5de20d, 0xffa1e43d199db993, 0x30d935fb4a89dd41,
    0x0f7bd3bffb9f356c, 0x4e9ae1c7793ade23, 0x29473a3701ed2ce8, 0xfa22f68968645338,
    0xd550105d78ff2f77, 0x7d7de50af766bacb, 0xdc8133c7f479d014, 0x00eee811101004b7,
    0x0ddb694fa3782034, 0xf6118eb6d15e633c, 0x0938b6e1ed4eb787, 0xb178f3701db34b7a,
    0xf35a065785209554, 0xa1b5b3ca3c8ba116, 0x3f34fb05ef183ffa, 0x9d9c8c4c2a9c146a,
    0x381939ab3c042705, 0x1d670436385488e2, 0x438d2a4241554104, 0x7801ed003f75339e,
    0x6115bfe4dd555c9a, 0xba753793a173a2c1, 0x0389a7428f3a6af2, 0x16be580f9580b90d,
    0x29e0fb182525dfe2, 0xb6ea7d20bce36af8, 0xfdf81b08aaa3d57c, 0x344cca5ce12f965c,
    0x9353302c9e7f4ab6, 0xcb0296afa4becfcc, 0x25d9d6f8f5ae468d, 0xff730a046c95f031,
    0xabac5e90f934e866, 0xe83c94584989b454, 0x358122de4c4e5105, 0x0c13b7c90867d4c9,
    0x54b81868f587b558, 0x58fce70d856f58b5, 0x74ab216d93867541, 0xbabaea78b964f643,
    0xd7436b32dc3dcdc4, 0x746b96166d6e675c, 0x0e09ee1e581b8f4b, 0xe1c75616e44bc7b0,
    0x7b77042beb106c45, 0x7af2caf769eee97a, 0x69720d8ce20c4813, 0xd595beb232072c48,
    0x3d74f0fe29fa5922, 0x7daff145a9ca7f0b, 0x63af119d315d02e8, 0x1adee14b29e945cd,
    0xf2f4aa8bdeb630d1, 0xd90b519a8251fee2, 0x6b6b3a98c884d0e1, 0x2629455b0576c02e,
    0xa5d00ba7a2712779, 0xb3ed15e106742459, 0x216429a33cc708d4, 0xc957ddefa334b0e3,
    0x44097f7022ffc7a4, 0x96ca5ea5e7a569ea, 0x70c278480d25f5a0, 0xae5a832643410f7c,
    0xdbd157f970ec8df0, 0x055d32ae73ce7a3e, 0x3d28896036a20d46, 0x6386a391d2fcb2a3,
    0x5fc6625a9293761b, 0x70dbedd4aaf042e4, 0xf1d157a6978f0192, 0x39d40cee311d666c,
    0x03560cf9e92f63a7, 0xdc2f021c9e7e117d, 0x4d79c2c3111ee974, 0x3178b819b4f89b84,
    0x9fd0796c76c6dd7a, 0x7c967bb5e1b02f23, 0xa3bec0983b12f736, 0x1408b8fe9fb93288,
    0x3d17f1ff0e7e228b, 0xc3cba3dd8d2f017b, 0x63d5a67f9607a51a, 0xd8b9f8fe2dd26f69,
    0x8a44466b4432f374, 0x8095a042a4e77779, 0x22aed6ef2be285ad, 0x6f0e14834e09471d,
    0x1985555f922ed550, 0x1b7d6360b9798c1b, 0xa1954b92b45b2800, 0x4fd8dc3d0ec45967,
    0xce9c373fcfec0672, 0x4832c30efafacdab, 0x86b2a849bba2dda5, 0x75b898878fca6686,
    0xa26df4fd49848fb1, 0xbe916edd3790eef1, 0x3796909d686b7bd3, 0x165af4fcc91d74a6,
    0x496c77440d38719a, 0x9a491ffd2f3da8c3, 0x113377c62193dbe5, 0x10bab5c296bc5b94,
    0x29de59cdde18a223, 0x127f2d23f7069d14, 0x902eb26da454a37f, 0x53e68fff88519748,
    0xa3c88489f44e3233, 0x8fdc93dabea699ab, 0x29640048f43e27ed, 0xb5500609dd84aa9d,
    0xd10a560b0ba8b0ee, 0xc8319e8f0929aff9, 0x1631800e075f3327, 0x9f16788a4f38d221,
    0xf657a9cbf5c51798, 0x8ffba4b4fda72670, 0xb26175e497be6b69, 0xf63e509fdbd1fb77,
    0xae9c5f2bf6ddb75c, 0x7118f5c79d72e2e4, 0x0ecc8aa4c67f0cce, 0x1b1117cf6e9616c1,
    0xc78083588a60b508, 0x224eee7dc0161f50, 0x33cd96f6b4a20e50, 0xc5645a0bdc29194c,
    0x6bbf1d7e927a1b14, 0x4fd46504c4f6e0a1, 0xad72adbf2fb077a1, 0xe43cde27c1ce6c4e,
    0x92a5b7dc5540465c, 0x2b0859050220cf7a, 0x656c4c7f04562239, 0x71b20db5c0d782c7,
    0x4f0a8b2a0b986486, 0xaf4949d61374179f, 0x7981b51a21d41c2a, 0xae59a3ca035b156d,
    0xec0112ebab6dfd4a, 0xef0ecb87f7c55e37, 0xb973dae388d212f7, 0x4a7577c062cc9687,
    0xe4aee55ea9afceeb, 0xf509d951fbaf870c, 0xa064c87f8fde0b80, 0xd8ec7e1bb36404fc,
    0x1389e90ee3fd9b0c, 0x28b233e4f4cbaf0d, 0x31804b789010c78e, 0xd9bcb22f8b265803,
    0xbdd4639dae54101d, 0xf9fb83ad04e462fa, 0x007db7dfc8824dbe, 0xc1e2951b37d670e6,
    0x615eeed86353a98d, 0x99b7dc20ee7ef35e, 0x4ef654f2ecc2f2c5, 0x680b92b2dac236a8,
    0xa8ecd23dc4f11440, 0x4ae10a8120089b39, 0xa152c10a8ea7c6ca, 0xb59a4ec85cb542dc,
    0xb71ee9f4372c4bd3, 0x773867d90fb7f964, 0xd1b35b734b4f1418, 0x22a11b65acc33d4f,
    0xfad27e2a3ff4bcd7, 0xce3297878906d178, 0x03be17399a6e1517, 0xc53bf542d880122b,
    0x089f54595ed327f2, 0xbb9278528e582ccd, 0x493055a197ab0189, 0x07b987795c8d007f,
    0x113a4160fd7c476f, 0x07db54089bea9f54, 0x4fd6ce7529bf2e8e, 0x69ae0141fe81a0e0,
    0x865fcdf74d55eb80, 0x98a436ffff2f9933, 0xf5de7c5aa029bc92, 0x73629ed721809baa,
    0xef9d4f77dbb6ea22, 0x9f4d1f72a65dbb00, 0x9a5083083440794a, 0xc6d5bb69778259f2,
    0x09fa4b47bcf61765, 0xb57b2563b05a1371, 0x6d6a432f89135f85, 0x48e76c33359ed1eb,
    0x79e8ea27fb6e3e47, 0xbe7fb7b12aa473b7, 0xb45142bafcc6ed40, 0x052d697c83cb4dd0,
    0xab91d483949eee46, 0xcbca50cc7f0b4684, 0xdebbf463c12637f8, 0xe943639b797a0f28,
    0xf61340c509d68674, 0x116a7f014fcacff5, 0x0eeec99aabbd380c, 0x26a718ae7b1661a1,
    0xae11d4ac5c69d201, 0xa6f7341dd95653ce, 0x673ecc49cc9e379a, 0x53e9d0fa1d523d1a,
    0xbe7fac5f21fa56db, 0x4943abcb1f41b9c0, 0x55f4056035d21c58, 0x24531d34cb9de9b6,
    0x1cdead9f1d6cda60, 0xe6a0f3ecc51d39c8, 0x1cc94be7d6e006d9, 0x9bbf6f8d31e8eaee,
    0xfaf12167a78e2c2b, 0x8315afb3d42536d8, 0xe9bab09be9709393, 0x23944aee8a0c2c7c,
    0x84eb439143086895, 0x381110d7adf37523, 0xdcb995b4df067e67, 0x130e49640a558637,
    0x322538e9d57ad268, 0xa34e4e00eff88ba5, 0xcdfe6eae3590475f, 0x0f02131fb9d6fdd0,
    0x0ddad5a69186a549, 0xc834b87c90e19ad2, 0xa19f128605c69f9c, 0xd52a9b33a04a1e17,
    0x8861477dd52aeded, 0x9cf1d8c45a561138, 0x36a16b85a8b5829c, 0xc4a289c47e34ac64,
    0x431bfbf4da8cee41, 0x4c1e3cca612cfac0, 0x509518a62f0a56aa, 0x2635a63b5d048e01,
    0x8d5e615739f8b0ea, 0x4d404016f4f3c63d, 0xd81efea72e330bef, 0xdc996f595f68c9aa,
    0xb1648a473bc71426, 0x92b6baf9472c3284, 0x0bd93aad3a041769, 0x95a68a5e38f1a418,
    0xfd5a51e143f21b02, 0x53fd2dad6e76482b, 0xed2bbec16df18838, 0xd0d65445c05e2205,
    0x47283400bee89302, 0xb0a819b2cb038ede, 0x26913e550619bda6, 0x3f6fb041e567ad0d,
    0x7e0e4da3486cd5ff, 0x56dc4cde5c9b59e6, 0x7b76c58164e678f4, 0x50682bc74d868900,
    0x87adabbfac0fdceb, 0x9a70686efa8329ea, 0x20406ccd1861456d, 0xb9a9956bde0407c3,
    0xef7a9e429f1912d2, 0x7d68cc565d8bf2eb, 0xb4b0f4d2b8e4da2d, 0x7e38d5af90a9b4ce,
    0x36d862c49dacc28a, 0xc85921d2a34b5374, 0x293403fa3f4ec4b6, 0x9f169a4ee0996609,
    0x185661b445e63049, 0x86d639f32edbc80a, 0x21ad1a181933f981, 0x93d47c423b1fbb3d,
    0x60ba3007df5b2d8d, 0xb4692efc37d69b70, 0x1807aa143f3d9458, 0x24c281351526ef8a,
    0xcc05bf89a2f064d0, 0x652758b35558abce, 0xc77d0863bf80d8e9, 0x8714cbc48dfcfcf4,
    0x446665452df0d8f8, 0x8e55e8b98b5f1f06, 0x356d19f6e3eaff3a, 0x1cfc67ca6dc19d58,
    0xc9b8f5301825f6dc, 0xc68116a425c5ab5b, 0x06aadbf702dfef59, 0xdf27f6c4a00729f4,
    0xd5b751b9a6c0a515, 0xcf1021919ac336dc, 0x7f4f3a61c055fedf, 0xd1ec5d9b83597f7a,
    0xf30dd549a2a7ea16, 0x3276e472af2d69c7, 0x0a71012224904d1e, 0x49d4ab881aed4674,
    0x1003291b1a2bcae7, 0xadec2ca5bc897b8d, 0x7d740a4d87d10b25, 0x14a7bd43fda1f485,
    0x15dcc0783ebd5125, 0x95d4c3bc7f0b1bec, 0x729c559efa5d7ef5, 0xd23a51a03705eb84,
    0x4375169e8c41f653, 0x4e9056908ae071b1, 0x5c6836a7e0614299, 0xb0651275449de20b,
    0x65ef712594cc5595, 0x836f4d55225a11c9, 0xb0e50fa1466f0b29, 0x56f7c10b25355b3f,
    0x5e3eb7e55fecf1c2, 0x719d9c81d1de469c, 0x5ddafc2b36efeec8, 0xd75ffea034dd57be,
    0x51640132ce7ffd46, 0x996bcb92ee8e3898, 0xccce066f1b59bb5b, 0xb51a99f351bdb64a,
    0x70aa5153e1a85aff, 0x9369cf2f823140cc, 0xdb5bd5173cd69d03, 0x10f3b09868c24810,
    0xd751cd0651a17e53, 0x5f2accc36b5b9660, 0xedfb6a7a9a7415c7, 0xcf6e656e4b131577,
    0xf5fb61d7d235b183, 0x526c31dc94652c24, 0x84da2ff3daeb51ae, 0xff44655e7d04c722,
    0x530ef9fbe07448cd, 0xba4e79c6abb37b1a, 0x82f66703a88bd3d9, 0x1a44c8d474f940e7,
    0x9d582781153d527d, 0x7b6652fb26891511, 0xbb6ceede1d569b20, 0x0d273936d61c34ac,
    0xe1d90a90ad644834, 0x4e2267511a755ad3, 0xce00d69b96fb8557, 0x72b59657de1798a2,
    0x3b7d9c7c991bb9f5, 0x724dbf72febb19ac, 0xdfeaf5835323d6b4, 0xae5ce8f7c63270be,
    0xa9df11f3a2576bc9, 0x3ccbbbc32317ca32, 0xddcd845056dfc7ef, 0x4ff4e39138f8d46c,
    0x19f4c85c137ca810, 0xf71b44b8df470996, 0x5532634c79299f63, 0xd1a2f916057f216c,
    0x673b55a01d2a9c82, 0x81a8bf688b965869, 0x5691904a3104d5f2, 0x2153b13838d48493,
    0xd55149815fb67b61, 0x6fbca20e7e4f0458, 0x07a1a1397cf36d2e, 0xcaec637d024bc77a,
    0xcdad6d53170f3827, 0x0f96257f314c05cd, 0xce76539dd92a043d, 0x6751aeef44a8888d,
    0xec9a3e1aadc46e79, 0xebb6cf01eb6441bb, 0xae5d51ccecbffcf7, 0x10c4bb295f03774c,
    0x0cedf084c49b5be2, 0xa9c538233c985296, 0xd153d96758719caf, 0x891da563ef9e53c6,
    0x5927191686210398, 0xfcbe6cd2233225f6, 0xe792fdc90b4c6df9, 0x0116cdaf9e54399f,
    0x2ab2bd8d81157759, 0x591b0d6ac8a3d370, 0xc3a67bfa017952e3, 0x59c059a7e19b477b,
    0x77f98715e66b58ba, 0xdeb0149354c36c80, 0xe23e29400336a976, 0x14a264495d345b97,
    0x34ba1d0d22ba55e3, 0xecaf89900cd2cfaf, 0xc8273ff89dea8b4f, 0xf82bdb4ec6ae3c24,
    0x0c565f4aabe87142, 0x5f1c47a37bbc8fa5, 0x2e2410de0ecd86b7, 0x4c8de68358f39ead,
    0x6e24c570f4197bb3, 0x5c55a8009f681913, 0xc760b5cf3b3db6f5, 0x4f9f0b905d933fe0,
    0x3df902d082bd70db, 0x83c748d924396832, 0xea7fe891c178b028, 0x2156481f6fdea24e,
    0xff74d805485b7ce5, 0x87682b830b359feb, 0xf241a7e4d41957cd, 0xcdbfa2630d1b6691,
    0xb4d7709b7829d02b, 0x75e5e2ba01ffece4, 0x02fe7410eb2f77f5, 0xe53fd5377031acbb,
    0xdc3aa02dcdffd624, 0xfc89f20d39fac933, 0xfd2080f0f355dce9, 0xabfc185084e044fa,
    0xd69712b5bf1dd346, 0xedf9654d83c75635, 0xb01e137aa1006693, 0xb61f4337405e9db7,
    0x54f661940c74af1c, 0x7d828ddcafb6db3f, 0xc18387bc241b28f4, 0xb2e9be1f7e4d2b9b,
    0xc9dfdd47073a55ed, 0x768bd1bb2856ac5a, 0xccb6dc6e74fee02f, 0xe40715d510e5df4f,
    0x89546f79427cddd7, 0x0a89dd3d161ffe3f, 0x00734fde79f6301c, 0x6e1289a4e112fff1,
    0x9ad674904977dc27, 0xaee5d5111799aedf, 0xc03fb274038447d0, 0x8c9f00ef150bd091,
    0x7c041443225c63a6, 0xcaf80d0add36258a, 0xc44a8069727b7bcb, 0xc16ed275d712ab0b,
    0x0bb301521ee3deb1, 0xf1247cc34f5bdf98, 0xf2c4444639e13099, 0x6d1e2368acb29325,
    0x3e3d8bcd1e9db9ba, 0xb75906907e48a7fe, 0xeb8f7a401d9e260d, 0x7beba9c203c38edf,
    0x17e4c8490ec22360, 0xa7dfb2ba01a512da, 0xd226a9e01bc22404, 0x852beab4c7f7e67f,
    0x7abcdf819c2b689f, 0xa81a2a7c0a58a1a1, 0x8d798112c8091b0e, 0x116fcadcb439e1f2,
    0x8d7271f7c3e456f9, 0xe64b64009ae642f5, 0xc48cc00c3369a941, 0x417456c2c81219e5,
    0x063e85135db68870, 0xebe6d0f018b465ee, 0x205fdb1856c7c56a, 0x8faf515a9a6e00fa,
    0xb7de834771cb0350, 0xf1ffa419cd1bd319, 0x5773cb1ac77e1cc1, 0x2d65f8121bca301f,
    0x2f831f2ff8e4b17d, 0xe0df029bdc4f9b03, 0xab733f7896bbf6ee, 0x9f4f7ae6618f6b2c,
    0x086e36c8a27e0eb3, 0xbd0cb92a4d12d8ed, 0x77a778ef5fd26200, 0x1251b2dac6f84cdb,
    0xf6e102122fb6b006, 0x69ad4ed44264082f, 0xb76acb0e6ce31aea, 0x7957ed06668ffce0,
    0x392127f9fcafcb06, 0xec36275757e0f35d, 0x8f883985e6d7ce0a, 0x6d0293781b837f46,
    0xb9fc436800e56c0f, 0x90b10cea405a5c2e, 0xae53e1445b00fdec, 0xca34e46b8ac28d78,
    0xc7bc0bff8be334cd, 0x1e3bd8b63269b554, 0xd70a1b6567f9e026, 0x6f973dacff3c3509,
    0x81a37c8cbe9ef54e, 0x39ce4cfcf57c1451, 0x5c86889f0bead34e, 0xd4e561f0e76558da,
    0x9b1de98a5ab64842, 0x997936bb1514e457, 0x058ec9dbc1f1b9f1, 0x6dfa467508d4393c,
];

pub const SIDE_TO_MOVE_KEY: u64 = 0x96651e76589c709c;

pub const CASTLING_KEYS: [u64; 16] = [
    0x71ef52a512a65b0b, 0xd2df2c6556a13a0a, 0xfa1566beab58d3c8, 0xb5d626ae39e4e9b5,
    0x6405888d1384737d, 0xdc4873feff6fab78, 0xd59f9409cdebf653, 0x3b0a3c48e629e103,
    0x98a9b37ddeb996ef, 0xc91887ff22ac4608, 0x9529dd6f739b9586, 0xce7fae426b29c1bb,
    0x00981c8484a68aea, 0xd1cf09a5930496e4, 0x18bcce7adbba4634, 0x81e2290c17fdfb3a,
];

pub const EN_PASSANT_KEYS: [u64; 8] = [
    0x2e576bc5de6fd0f9, 0xf9d5b22379a730ff, 0x0f9d9106188892f9, 0x0d0914e544dc2467,
    0x8e3495e75eba3a39, 0x389403e951170a6d, 0xd7ee4186103a2e6b, 0xb46a72e052717822,
];

} // verus!
