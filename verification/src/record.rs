//! The lc0 V6 training record, decoded from its fixed little-endian layout.
//!
//! Floating-point fields are kept as their raw IEEE-754 bit patterns; turning
//! them into numbers is left to the caller.

use vstd::prelude::*;

verus! {

/// Size in bytes of one V6 training record.
pub const RECORD_SIZE: usize = 8356;

/// Number of entries of the policy vector.
pub const POLICY_SIZE: usize = 1858;

/// Number of 64-bit input planes.
pub const NUM_PLANES: usize = 104;

pub const OFF_VERSION: usize = 0;
pub const OFF_INPUT_FORMAT: usize = 4;
pub const OFF_PROBABILITIES: usize = 8;
pub const OFF_PLANES: usize = 7440;
pub const OFF_CAST_US_OOO: usize = 8272;
pub const OFF_CAST_US_OO: usize = 8273;
pub const OFF_CAST_THEM_OOO: usize = 8274;
pub const OFF_CAST_THEM_OO: usize = 8275;
pub const OFF_SIDE_OR_EP: usize = 8276;
pub const OFF_RULE50: usize = 8277;
pub const OFF_INVARIANCE: usize = 8278;
pub const OFF_DUMMY: usize = 8279;
pub const OFF_ROOT_Q: usize = 8280;
pub const OFF_BEST_Q: usize = 8284;
pub const OFF_ROOT_D: usize = 8288;
pub const OFF_BEST_D: usize = 8292;
pub const OFF_ROOT_M: usize = 8296;
pub const OFF_BEST_M: usize = 8300;
pub const OFF_PLIES_LEFT: usize = 8304;
pub const OFF_RESULT_Q: usize = 8308;
pub const OFF_RESULT_D: usize = 8312;
pub const OFF_PLAYED_Q: usize = 8316;
pub const OFF_PLAYED_D: usize = 8320;
pub const OFF_PLAYED_M: usize = 8324;
pub const OFF_ORIG_Q: usize = 8328;
pub const OFF_ORIG_D: usize = 8332;
pub const OFF_ORIG_M: usize = 8336;
pub const OFF_VISITS: usize = 8340;
pub const OFF_PLAYED_IDX: usize = 8344;
pub const OFF_BEST_IDX: usize = 8346;
pub const OFF_POLICY_KLD: usize = 8348;
pub const OFF_RESERVED: usize = 8352;

// ── Little-endian decoding ───────────────────────────────────────────────────

/// The 16-bit little-endian value stored at `b[o..o+2]`.
pub open spec fn le_u16(b: Seq<u8>, o: int) -> int {
    b[o] + 0x100 * b[o + 1]
}

/// The 32-bit little-endian value stored at `b[o..o+4]`.
pub open spec fn le_u32(b: Seq<u8>, o: int) -> int {
    le_u16(b, o) + 0x1_0000 * le_u16(b, o + 2)
}

/// The 64-bit little-endian value stored at `b[o..o+8]`.
pub open spec fn le_u64(b: Seq<u8>, o: int) -> int {
    le_u32(b, o) + 0x1_0000_0000 * le_u32(b, o + 4)
}

fn ru8(b: &[u8], o: usize) -> (r: u8)
    requires
        o < b@.len(),
    ensures
        r == b@[o as int],
{
    b[o]
}

fn ru16(b: &[u8], o: usize) -> (r: u16)
    requires
        o + 2 <= b@.len(),
    ensures
        r == le_u16(b@, o as int),
{
    (b[o] as u16) + (b[o + 1] as u16) * 0x100
}

fn ru32(b: &[u8], o: usize) -> (r: u32)
    requires
        o + 4 <= b@.len(),
    ensures
        r == le_u32(b@, o as int),
{
    let n = b.len();
    (ru16(b, o) as u32) + (ru16(b, o + 2) as u32) * 0x1_0000
}

fn ru64(b: &[u8], o: usize) -> (r: u64)
    requires
        o + 8 <= b@.len(),
    ensures
        r == le_u64(b@, o as int),
{
    let n = b.len();
    (ru32(b, o) as u64) + (ru32(b, o + 4) as u64) * 0x1_0000_0000
}

// ── Record ───────────────────────────────────────────────────────────────────

/// One V6 training record.  Fields typed `u32` whose names are values of
/// the search (`root_q`, `best_q`, ..., `policy_kld`) and the entries of
/// `probabilities` hold the raw bits of IEEE-754 single-precision numbers.
pub struct V6Record {
    pub version: u32,
    pub input_format: u32,
    /// Raw bits of the policy probabilities of all 1858 lc0 moves (-1.0 marks an unvisited move).
    pub probabilities: Vec<u32>,
    /// Input board planes as stored (bits reversed within each byte).
    pub planes: Vec<u64>,
    pub castling_us_ooo: u8,
    pub castling_us_oo: u8,
    pub castling_them_ooo: u8,
    pub castling_them_oo: u8,
    /// Canonical formats: en-passant column mask.  Classical: 0 = white, else black.
    pub side_to_move_or_enpassant: u8,
    pub rule50_count: u8,
    /// Bitfield of flags, see the accessors below.
    pub invariance_info: u8,
    pub dummy: u8,
    pub root_q: u32,
    pub best_q: u32,
    pub root_d: u32,
    pub best_d: u32,
    pub root_m: u32,
    pub best_m: u32,
    pub plies_left: u32,
    pub result_q: u32,
    pub result_d: u32,
    pub played_q: u32,
    pub played_d: u32,
    pub played_m: u32,
    pub orig_q: u32,
    pub orig_d: u32,
    pub orig_m: u32,
    pub visits: u32,
    pub played_idx: u16,
    pub best_idx: u16,
    pub policy_kld: u32,
    pub reserved: u32,
}

impl V6Record {
    /// The vectors have the sizes of the record layout.
    pub open spec fn wf(&self) -> bool {
        &&& self.probabilities@.len() == POLICY_SIZE
        &&& self.planes@.len() == NUM_PLANES
    }

    /// `self` is exactly the record stored in the first `RECORD_SIZE` bytes of `b`.
    pub open spec fn decoded_from(&self, b: Seq<u8>) -> bool {
        &&& self.wf()
        &&& self.version == le_u32(b, OFF_VERSION as int)
        &&& self.input_format == le_u32(b, OFF_INPUT_FORMAT as int)
        &&& forall|i: int|
            0 <= i < POLICY_SIZE ==> #[trigger] self.probabilities@[i] == le_u32(
                b,
                OFF_PROBABILITIES + 4 * i,
            )
        &&& forall|i: int|
            0 <= i < NUM_PLANES ==> #[trigger] self.planes@[i] == le_u64(b, OFF_PLANES + 8 * i)
        &&& self.castling_us_ooo == b[OFF_CAST_US_OOO as int]
        &&& self.castling_us_oo == b[OFF_CAST_US_OO as int]
        &&& self.castling_them_ooo == b[OFF_CAST_THEM_OOO as int]
        &&& self.castling_them_oo == b[OFF_CAST_THEM_OO as int]
        &&& self.side_to_move_or_enpassant == b[OFF_SIDE_OR_EP as int]
        &&& self.rule50_count == b[OFF_RULE50 as int]
        &&& self.invariance_info == b[OFF_INVARIANCE as int]
        &&& self.dummy == b[OFF_DUMMY as int]
        &&& self.root_q == le_u32(b, OFF_ROOT_Q as int)
        &&& self.best_q == le_u32(b, OFF_BEST_Q as int)
        &&& self.root_d == le_u32(b, OFF_ROOT_D as int)
        &&& self.best_d == le_u32(b, OFF_BEST_D as int)
        &&& self.root_m == le_u32(b, OFF_ROOT_M as int)
        &&& self.best_m == le_u32(b, OFF_BEST_M as int)
        &&& self.plies_left == le_u32(b, OFF_PLIES_LEFT as int)
        &&& self.result_q == le_u32(b, OFF_RESULT_Q as int)
        &&& self.result_d == le_u32(b, OFF_RESULT_D as int)
        &&& self.played_q == le_u32(b, OFF_PLAYED_Q as int)
        &&& self.played_d == le_u32(b, OFF_PLAYED_D as int)
        &&& self.played_m == le_u32(b, OFF_PLAYED_M as int)
        &&& self.orig_q == le_u32(b, OFF_ORIG_Q as int)
        &&& self.orig_d == le_u32(b, OFF_ORIG_D as int)
        &&& self.orig_m == le_u32(b, OFF_ORIG_M as int)
        &&& self.visits == le_u32(b, OFF_VISITS as int)
        &&& self.played_idx == le_u16(b, OFF_PLAYED_IDX as int)
        &&& self.best_idx == le_u16(b, OFF_BEST_IDX as int)
        &&& self.policy_kld == le_u32(b, OFF_POLICY_KLD as int)
        &&& self.reserved == le_u32(b, OFF_RESERVED as int)
    }

    /// Parse one record from a byte slice of at least `RECORD_SIZE` bytes.
    pub fn from_bytes(b: &[u8]) -> (res: Option<Self>)
        ensures
            res is None <==> b@.len() < RECORD_SIZE,
            res matches Some(r) ==> r.decoded_from(b@),
    {
        if b.len() < RECORD_SIZE {
            return None;
        }
        let mut probabilities: Vec<u32> = Vec::new();
        let mut i: usize = 0;
        while i < POLICY_SIZE
            invariant
                i <= POLICY_SIZE,
                b@.len() >= RECORD_SIZE,
                probabilities@.len() == i,
                forall|j: int|
                    0 <= j < i ==> #[trigger] probabilities@[j] == le_u32(
                        b@,
                        OFF_PROBABILITIES + 4 * j,
                    ),
            decreases POLICY_SIZE - i,
        {
            probabilities.push(ru32(b, OFF_PROBABILITIES + i * 4));
            i = i + 1;
        }
        let mut planes: Vec<u64> = Vec::new();
        let mut k: usize = 0;
        while k < NUM_PLANES
            invariant
                k <= NUM_PLANES,
                b@.len() >= RECORD_SIZE,
                planes@.len() == k,
                forall|j: int|
                    0 <= j < k ==> #[trigger] planes@[j] == le_u64(b@, OFF_PLANES + 8 * j),
            decreases NUM_PLANES - k,
        {
            planes.push(ru64(b, OFF_PLANES + k * 8));
            k = k + 1;
        }
        Some(
            V6Record {
                version: ru32(b, OFF_VERSION),
                input_format: ru32(b, OFF_INPUT_FORMAT),
                probabilities,
                planes,
                castling_us_ooo: ru8(b, OFF_CAST_US_OOO),
                castling_us_oo: ru8(b, OFF_CAST_US_OO),
                castling_them_ooo: ru8(b, OFF_CAST_THEM_OOO),
                castling_them_oo: ru8(b, OFF_CAST_THEM_OO),
                side_to_move_or_enpassant: ru8(b, OFF_SIDE_OR_EP),
                rule50_count: ru8(b, OFF_RULE50),
                invariance_info: ru8(b, OFF_INVARIANCE),
                dummy: ru8(b, OFF_DUMMY),
                root_q: ru32(b, OFF_ROOT_Q),
                best_q: ru32(b, OFF_BEST_Q),
                root_d: ru32(b, OFF_ROOT_D),
                best_d: ru32(b, OFF_BEST_D),
                root_m: ru32(b, OFF_ROOT_M),
                best_m: ru32(b, OFF_BEST_M),
                plies_left: ru32(b, OFF_PLIES_LEFT),
                result_q: ru32(b, OFF_RESULT_Q),
                result_d: ru32(b, OFF_RESULT_D),
                played_q: ru32(b, OFF_PLAYED_Q),
                played_d: ru32(b, OFF_PLAYED_D),
                played_m: ru32(b, OFF_PLAYED_M),
                orig_q: ru32(b, OFF_ORIG_Q),
                orig_d: ru32(b, OFF_ORIG_D),
                orig_m: ru32(b, OFF_ORIG_M),
                visits: ru32(b, OFF_VISITS),
                played_idx: ru16(b, OFF_PLAYED_IDX),
                best_idx: ru16(b, OFF_BEST_IDX),
                policy_kld: ru32(b, OFF_POLICY_KLD),
                reserved: ru32(b, OFF_RESERVED),
            },
        )
    }
    // ── invariance_info flags ───────────────────────────────────────────────

    /// Bit 7: side to move (canonical input formats).
    pub fn canonical_side_to_move(&self) -> (r: bool)
        ensures
            r == (self.invariance_info & 0x80 != 0),
    {
        self.invariance_info & 0x80 != 0
    }

    /// Bit 6: position marked for deletion by the rescorer.
    pub fn marked_for_deletion(&self) -> (r: bool)
        ensures
            r == (self.invariance_info & 0x40 != 0),
    {
        self.invariance_info & 0x40 != 0
    }

    /// Bit 5: the game was adjudicated.
    pub fn game_adjudicated(&self) -> (r: bool)
        ensures
            r == (self.invariance_info & 0x20 != 0),
    {
        self.invariance_info & 0x20 != 0
    }

    /// Bit 4: the maximum game length was exceeded.
    pub fn max_game_length_exceeded(&self) -> (r: bool)
        ensures
            r == (self.invariance_info & 0x10 != 0),
    {
        self.invariance_info & 0x10 != 0
    }

    /// Bit 3: `best_q` belongs to a proven best move.
    pub fn best_q_is_proven(&self) -> (r: bool)
        ensures
            r == (self.invariance_info & 0x08 != 0),
    {
        self.invariance_info & 0x08 != 0
    }

    /// Bit 2: transpose transform.
    pub fn transform_transpose(&self) -> (r: bool)
        ensures
            r == (self.invariance_info & 0x04 != 0),
    {
        self.invariance_info & 0x04 != 0
    }

    /// Bit 1: mirror transform.
    pub fn transform_mirror(&self) -> (r: bool)
        ensures
            r == (self.invariance_info & 0x02 != 0),
    {
        self.invariance_info & 0x02 != 0
    }

    /// Bit 0: flip transform.
    pub fn transform_flip(&self) -> (r: bool)
        ensures
            r == (self.invariance_info & 0x01 != 0),
    {
        self.invariance_info & 0x01 != 0
    }

    /// "White" when the side-to-move byte is zero, "Black" otherwise.
    pub fn side_to_move_str(&self) -> (r: &'static str)
        ensures
            self.side_to_move_or_enpassant == 0 ==> r@ == "White"@,
            self.side_to_move_or_enpassant != 0 ==> r@ == "Black"@,
    {
        if self.side_to_move_or_enpassant == 0 {
            "White"
        } else {
            "Black"
        }
    }

    /// The raw castling flags as text: `K`, `Q`, `k`, `q` for the set flags
    /// (side to move first), or `-` when none is set.
    pub open spec fn spec_castling_str(&self) -> Seq<char> {
        let s = (if self.castling_us_oo != 0 { seq!['K'] } else { seq![] })
            + (if self.castling_us_ooo != 0 { seq!['Q'] } else { seq![] })
            + (if self.castling_them_oo != 0 { seq!['k'] } else { seq![] })
            + (if self.castling_them_ooo != 0 { seq!['q'] } else { seq![] });
        if s.len() == 0 { seq!['-'] } else { s }
    }

    pub fn castling_str(&self) -> (r: String)
        ensures
            r@ == self.spec_castling_str(),
    {
        let mut s = String::new();
        if self.castling_us_oo != 0 {
            s.push('K');
        }
        if self.castling_us_ooo != 0 {
            s.push('Q');
        }
        if self.castling_them_oo != 0 {
            s.push('k');
        }
        if self.castling_them_ooo != 0 {
            s.push('q');
        }
        if s.as_str().is_empty() {
            s.push('-');
        }
        assert(s@ =~= self.spec_castling_str());
        s
    }
}

/// Each decoded field is the little-endian word at its own place in the
/// 8356-byte layout: the policy from byte 8, the planes from byte 7440,
/// then the header bytes and the search values at fixed offsets, four
/// bytes apart.
pub proof fn law_fields_at_their_offsets(r: V6Record, b: Seq<u8>)
    requires
        b.len() >= 8356,
        r.decoded_from(b),
    ensures
        r.version == le_u32(b, 0),
        r.input_format == le_u32(b, 4),
        forall|i: int| 0 <= i < 1858 ==> #[trigger] r.probabilities@[i] == le_u32(b, 8 + 4 * i),
        forall|i: int| 0 <= i < 104 ==> #[trigger] r.planes@[i] == le_u64(b, 7440 + 8 * i),
        r.castling_us_ooo == b[8272],
        r.castling_us_oo == b[8273],
        r.castling_them_ooo == b[8274],
        r.castling_them_oo == b[8275],
        r.side_to_move_or_enpassant == b[8276],
        r.rule50_count == b[8277],
        r.invariance_info == b[8278],
        r.dummy == b[8279],
        r.root_q == le_u32(b, 8280),
        r.best_q == le_u32(b, 8284),
        r.root_d == le_u32(b, 8288),
        r.best_d == le_u32(b, 8292),
        r.root_m == le_u32(b, 8296),
        r.best_m == le_u32(b, 8300),
        r.plies_left == le_u32(b, 8304),
        r.result_q == le_u32(b, 8308),
        r.result_d == le_u32(b, 8312),
        r.played_q == le_u32(b, 8316),
        r.played_d == le_u32(b, 8320),
        r.played_m == le_u32(b, 8324),
        r.orig_q == le_u32(b, 8328),
        r.orig_d == le_u32(b, 8332),
        r.orig_m == le_u32(b, 8336),
        r.visits == le_u32(b, 8340),
        r.played_idx == le_u16(b, 8344),
        r.best_idx == le_u16(b, 8346),
        r.policy_kld == le_u32(b, 8348),
        r.reserved == le_u32(b, 8352),
{
}

/// Records are fixed-size: what `from_bytes` decodes depends on the first
/// `RECORD_SIZE` bytes alone, so two buffers that agree there decode to the
/// same record.
pub proof fn law_decoding_reads_one_record(r1: V6Record, b1: Seq<u8>, r2: V6Record, b2: Seq<u8>)
    requires
        b1.len() >= RECORD_SIZE,
        b2.len() >= RECORD_SIZE,
        b1.take(RECORD_SIZE as int) == b2.take(RECORD_SIZE as int),
        r1.decoded_from(b1),
        r2.decoded_from(b2),
    ensures
        r1.probabilities@ == r2.probabilities@,
        r1.planes@ == r2.planes@,
        r1.version == r2.version,
        r1.input_format == r2.input_format,
        r1.castling_us_ooo == r2.castling_us_ooo,
        r1.castling_us_oo == r2.castling_us_oo,
        r1.castling_them_ooo == r2.castling_them_ooo,
        r1.castling_them_oo == r2.castling_them_oo,
        r1.side_to_move_or_enpassant == r2.side_to_move_or_enpassant,
        r1.rule50_count == r2.rule50_count,
        r1.invariance_info == r2.invariance_info,
        r1.dummy == r2.dummy,
        r1.root_q == r2.root_q,
        r1.best_q == r2.best_q,
        r1.root_d == r2.root_d,
        r1.best_d == r2.best_d,
        r1.root_m == r2.root_m,
        r1.best_m == r2.best_m,
        r1.plies_left == r2.plies_left,
        r1.result_q == r2.result_q,
        r1.result_d == r2.result_d,
        r1.played_q == r2.played_q,
        r1.played_d == r2.played_d,
        r1.played_m == r2.played_m,
        r1.orig_q == r2.orig_q,
        r1.orig_d == r2.orig_d,
        r1.orig_m == r2.orig_m,
        r1.visits == r2.visits,
        r1.played_idx == r2.played_idx,
        r1.best_idx == r2.best_idx,
        r1.policy_kld == r2.policy_kld,
        r1.reserved == r2.reserved,
{
    assert forall|k: int| 0 <= k < RECORD_SIZE implies #[trigger] b1[k] == b2[k] by {
        let t1 = b1.take(RECORD_SIZE as int);
        let t2 = b2.take(RECORD_SIZE as int);
        assert(t1[k] == b1[k]);
        assert(t2[k] == b2[k]);
        assert(t1[k] == t2[k]);
    }
    assert forall|i: int| 0 <= i < POLICY_SIZE implies #[trigger] r1.probabilities@[i] == r2.probabilities@[i] by {
        let o = OFF_PROBABILITIES + 4 * i;
        assert(b1[o] == b2[o] && b1[o + 1] == b2[o + 1] && b1[o + 2] == b2[o + 2] && b1[o + 3] == b2[o + 3]);
    }
    assert forall|i: int| 0 <= i < NUM_PLANES implies #[trigger] r1.planes@[i] == r2.planes@[i] by {
        let o = OFF_PLANES + 8 * i;
        assert(b1[o] == b2[o] && b1[o + 1] == b2[o + 1] && b1[o + 2] == b2[o + 2] && b1[o + 3] == b2[o + 3]);
        assert(b1[o + 4] == b2[o + 4] && b1[o + 5] == b2[o + 5] && b1[o + 6] == b2[o + 6] && b1[o + 7] == b2[o + 7]);
    }
    assert(r1.probabilities@ =~= r2.probabilities@);
    assert(r1.planes@ =~= r2.planes@);
}

} // verus!
