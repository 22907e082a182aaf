//! Program identifiers: validation of the raw base58 string and the
//! validated 32-byte address value.
//!
//! A well-formed identifier is a base58 rendering of exactly 32 bytes: each
//! leading `'1'` stands for one leading zero byte, and the remaining
//! characters are the base58 digits of the value of the remaining bytes,
//! most significant first.
use vstd::prelude::*;

verus! {

use crate::LookupFailure;

/// Value of `c` as a base58 digit, or -1 when `c` is not in the base58
/// alphabet (the alphabet omits `0`, `I`, `O` and `l`).
pub open spec fn b58_digit(c: char) -> int {
    let u = c as int;
    if 49 <= u <= 57 {  // '1' ..= '9'
        u - 49
    } else if 65 <= u <= 72 {  // 'A' ..= 'H'
        u - 65 + 9
    } else if 74 <= u <= 78 {  // 'J' ..= 'N'
        u - 74 + 17
    } else if 80 <= u <= 90 {  // 'P' ..= 'Z'
        u - 80 + 22
    } else if 97 <= u <= 107 {  // 'a' ..= 'k'
        u - 97 + 33
    } else if 109 <= u <= 122 {  // 'm' ..= 'z'
        u - 109 + 44
    } else {
        -1
    }
}

/// Whether `c` belongs to the base58 alphabet.
pub open spec fn is_b58_char(c: char) -> bool {
    b58_digit(c) >= 0
}

/// The integer a base58 digit string denotes, most significant digit first.
pub open spec fn b58_val(s: Seq<char>) -> int
    decreases s.len(),
{
    if s.len() == 0 {
        0
    } else {
        58 * b58_val(s.drop_last()) + b58_digit(s.last())
    }
}

/// Number of leading `'1'` characters, each standing for a zero byte.
pub open spec fn leading_ones(s: Seq<char>) -> nat
    decreases s.len(),
{
    if s.len() == 0 {
        0
    } else if s[0] == '1' {
        1 + leading_ones(s.subrange(1, s.len() as int))
    } else {
        0
    }
}

/// The integer a byte string denotes, most significant byte first.
pub open spec fn be_val(b: Seq<u8>) -> int
    decreases b.len(),
{
    if b.len() == 0 {
        0
    } else {
        256 * be_val(b.drop_last()) + b.last()
    }
}

/// 256 to the power `k`.
pub open spec fn pow256(k: nat) -> int
    decreases k,
{
    if k == 0 {
        1
    } else {
        256 * pow256((k - 1) as nat)
    }
}

/// Whether `s` is the base58 rendering of exactly 32 bytes: every character
/// is a base58 digit, and the denoted value occupies exactly the bytes that
/// the leading `'1'`s leave free.
pub open spec fn valid_program_id(s: Seq<char>) -> bool {
    &&& forall|i: int| 0 <= i < s.len() ==> is_b58_char(s[i])
    &&& leading_ones(s) <= 32
    &&& b58_val(s) < pow256((32 - leading_ones(s)) as nat)
    &&& (leading_ones(s) < 32 ==> b58_val(s) >= pow256((31 - leading_ones(s)) as nat))
}

/// A validated, immutable program address: the canonical base58 text and the
/// 32 bytes it denotes. Created once per lookup; read-only thereafter.
#[derive(Clone, Debug)]
pub struct ProgramIdentifier {
    /// Canonical base58 form.
    pub text: String,
    /// The 32-byte address value the text denotes.
    pub bytes: Vec<u8>,
}

impl View for ProgramIdentifier {
    type V = Seq<char>;

    open spec fn view(&self) -> Seq<char> {
        self.text@
    }
}

impl ProgramIdentifier {
    /// The canonical text denotes exactly the 32 held bytes.
    pub open spec fn wf(&self) -> bool {
        &&& valid_program_id(self.text@)
        &&& self.bytes@.len() == 32
        &&& be_val(self.bytes@) == b58_val(self.text@)
    }
}

/// Every character is a base58 digit.
pub open spec fn all_b58(s: Seq<char>) -> bool {
    forall|i: int| 0 <= i < s.len() ==> is_b58_char(s[i])
}

proof fn lemma_pow256_pos(k: nat)
    ensures
        pow256(k) >= 1,
    decreases k,
{
    if k > 0 {
        lemma_pow256_pos((k - 1) as nat);
    }
}

proof fn lemma_pow256_mono(a: nat, b: nat)
    requires
        a <= b,
    ensures
        pow256(a) <= pow256(b),
    decreases b,
{
    if a < b {
        lemma_pow256_mono(a, (b - 1) as nat);
        lemma_pow256_pos((b - 1) as nat);
    }
}

proof fn lemma_be_val_bounds(b: Seq<u8>)
    ensures
        0 <= be_val(b) < pow256(b.len()),
    decreases b.len(),
{
    if b.len() > 0 {
        lemma_be_val_bounds(b.drop_last());
    }
}

proof fn lemma_be_val_first(b: Seq<u8>)
    requires
        b.len() >= 1,
    ensures
        be_val(b) == b[0] * pow256((b.len() - 1) as nat) + be_val(b.drop_first()),
    decreases b.len(),
{
    if b.len() == 1 {
        assert(b.drop_last() =~= Seq::<u8>::empty());
        assert(b.drop_first() =~= Seq::<u8>::empty());
        assert(b.last() == b[0]);
        assert(pow256((b.len() - 1) as nat) == 1);
        assert(be_val(Seq::<u8>::empty()) == 0);
        assert(be_val(b) == 256 * be_val(b.drop_last()) + b.last());
        assert(be_val(b) == b[0]);
        assert(b[0] * 1 == b[0]);
    } else {
        let dl = b.drop_last();
        let df = b.drop_first();
        lemma_be_val_first(dl);
        assert(dl.drop_first() =~= df.drop_last());
        assert(df.last() == b.last());
        assert(dl[0] == b[0]);
        let p = pow256((b.len() - 2) as nat);
        assert(pow256((b.len() - 1) as nat) == 256 * p);
        assert(be_val(b) == 256 * be_val(dl) + b.last());
        assert(be_val(dl) == b[0] * p + be_val(df.drop_last()));
        assert(be_val(df) == 256 * be_val(df.drop_last()) + b.last());
        assert(256 * (b[0] * p + be_val(df.drop_last())) == b[0] * (256 * p) + 256 * be_val(
            df.drop_last(),
        )) by (nonlinear_arith);
        assert(256 * be_val(dl) == 256 * (b[0] * p + be_val(df.drop_last())));
        assert(be_val(b) == b[0] * (256 * p) + (256 * be_val(df.drop_last()) + b.last()));
        assert(be_val(b) == b[0] * pow256((b.len() - 1) as nat) + be_val(df));
    }
}

proof fn lemma_zero_prefix(b: Seq<u8>, k: int)
    requires
        0 <= k <= b.len(),
    ensures
        (forall|i: int| 0 <= i < k ==> b[i] == 0) <==> be_val(b) < pow256((b.len() - k) as nat),
    decreases k,
{
    lemma_be_val_bounds(b);
    if k > 0 {
        let rest = b.drop_first();
        lemma_be_val_first(b);
        lemma_zero_prefix(rest, k - 1);
        lemma_be_val_bounds(rest);
        lemma_pow256_mono((b.len() - k) as nat, (b.len() - 1) as nat);
        let p = pow256((b.len() - 1) as nat);
        lemma_pow256_pos((b.len() - 1) as nat);
        if b[0] == 0 {
            assert(be_val(b) == be_val(rest));
            if forall|i: int| 0 <= i < k ==> b[i] == 0 {
                assert forall|i: int| 0 <= i < k - 1 implies rest[i] == 0 by {
                    assert(rest[i] == b[i + 1]);
                }
                assert(be_val(rest) < pow256((rest.len() - (k - 1)) as nat));
            }
            if be_val(b) < pow256((b.len() - k) as nat) {
                assert(be_val(rest) < pow256((rest.len() - (k - 1)) as nat));
                assert forall|i: int| 0 <= i < k implies b[i] == 0 by {
                    if i > 0 {
                        assert(b[i] == rest[i - 1]);
                    }
                }
            }
        } else {
            assert(b[0] >= 1);
            assert(b[0] * p >= 1 * p) by (nonlinear_arith)
                requires
                    b[0] >= 1,
                    p >= 1,
            ;
            assert(be_val(b) >= p);
        }
    }
}

proof fn lemma_b58_nonneg(s: Seq<char>)
    requires
        all_b58(s),
    ensures
        b58_val(s) >= 0,
    decreases s.len(),
{
    if s.len() > 0 {
        assert forall|i: int| 0 <= i < s.drop_last().len() implies is_b58_char(
            #[trigger] s.drop_last()[i],
        ) by {
            assert(s.drop_last()[i] == s[i]);
        }
        lemma_b58_nonneg(s.drop_last());
        assert(is_b58_char(s.last()));
    }
}

proof fn lemma_b58_take_step(s: Seq<char>, i: int)
    requires
        0 <= i < s.len(),
    ensures
        b58_val(s.take(i + 1)) == 58 * b58_val(s.take(i)) + b58_digit(s[i]),
{
    assert(s.take(i + 1).drop_last() =~= s.take(i));
    assert(s.take(i + 1).last() == s[i]);
}

proof fn lemma_b58_prefix_le(s: Seq<char>, i: int)
    requires
        all_b58(s),
        0 <= i <= s.len(),
    ensures
        b58_val(s.take(i)) <= b58_val(s),
    decreases s.len() - i,
{
    if i == s.len() {
        assert(s.take(i) =~= s);
    } else {
        lemma_b58_take_step(s, i);
        assert forall|q: int| 0 <= q < s.take(i).len() implies is_b58_char(
            #[trigger] s.take(i)[q],
        ) by {
            assert(s.take(i)[q] == s[q]);
        }
        lemma_b58_nonneg(s.take(i));
        assert(is_b58_char(s[i]));
        lemma_b58_prefix_le(s, i + 1);
    }
}

proof fn lemma_leading_ones_char(s: Seq<char>, z: int)
    requires
        0 <= z <= s.len(),
        forall|i: int| 0 <= i < z ==> s[i] == '1',
        z == s.len() || s[z] != '1',
    ensures
        leading_ones(s) == z,
    decreases s.len(),
{
    if s.len() == 0 {
    } else if s[0] != '1' {
        assert(z == 0);
    } else {
        assert(z >= 1);
        let sub = s.subrange(1, s.len() as int);
        assert forall|i: int| 0 <= i < z - 1 implies sub[i] == '1' by {
            assert(sub[i] == s[i + 1]);
        }
        assert(z - 1 == sub.len() || sub[z - 1] != '1') by {
            if z < s.len() {
                assert(sub[z - 1] == s[z]);
            }
        }
        lemma_leading_ones_char(sub, z - 1);
    }
}

/// Base58 digit value of one character, if it has one.
fn b58_digit_of(c: char) -> (d: Option<u8>)
    ensures
        match d {
            Some(v) => b58_digit(c) == v as int && v < 58,
            None => !is_b58_char(c),
        },
{
    let u = c as u32;
    if 49 <= u && u <= 57 {  // '1' ..= '9'
        Some((u - 49) as u8)
    } else if 65 <= u && u <= 72 {  // 'A' ..= 'H'
        Some((u - 65 + 9) as u8)
    } else if 74 <= u && u <= 78 {  // 'J' ..= 'N'
        Some((u - 74 + 17) as u8)
    } else if 80 <= u && u <= 90 {  // 'P' ..= 'Z'
        Some((u - 80 + 22) as u8)
    } else if 97 <= u && u <= 107 {  // 'a' ..= 'k'
        Some((u - 97 + 33) as u8)
    } else if 109 <= u && u <= 122 {  // 'm' ..= 'z'
        Some((u - 109 + 44) as u8)
    } else {
        None
    }
}

/// Parse and validate a raw program identifier: accepted exactly when it is
/// the base58 rendering of a 32-byte value, returning the validated address.
pub fn validate(raw: &str) -> (r: Result<ProgramIdentifier, LookupFailure>)
    ensures
        match r {
            Ok(id) => valid_program_id(raw@) && id.wf() && id@ == raw@,
            Err(e) => e == LookupFailure::InvalidIdentifier && !valid_program_id(raw@),
        },
{
    let n = raw.unicode_len();
    let mut buf: Vec<u8> = Vec::new();
    let mut t: usize = 0;
    while t < 32
        invariant
            t <= 32,
            buf@.len() == t as int,
            forall|q: int| 0 <= q < t as int ==> buf@[q] == 0,
        decreases 32 - t,
    {
        buf.push(0);
        t += 1;
    }
    proof {
        lemma_zero_prefix(buf@, 32);
        lemma_be_val_bounds(buf@);
        assert(pow256(0) == 1);
        assert(be_val(buf@) == 0);
        assert(raw@.take(0) =~= Seq::<char>::empty());
    }

    // Horner evaluation of the digit string into a 32-byte big-endian
    // accumulator; a carry out of the top byte means the value needs more
    // than 32 bytes.
    let mut i: usize = 0;
    while i < n
        invariant
            n as int == raw@.len(),
            i <= n,
            buf@.len() == 32,
            forall|q: int| 0 <= q < i as int ==> is_b58_char(raw@[q]),
            be_val(buf@) == b58_val(raw@.take(i as int)),
        decreases n - i,
    {
        let c = raw.get_char(i);
        let d: u8 = match b58_digit_of(c) {
            Some(d) => d,
            None => {
                proof {
                    assert(!valid_program_id(raw@)) by {
                        if valid_program_id(raw@) {
                            assert(is_b58_char(raw@[i as int]));
                        }
                    }
                }
                return Err(LookupFailure::InvalidIdentifier);
            },
        };
        let ghost buf0 = buf@;
        let mut carry: u32 = d as u32;
        let mut j: usize = 32;
        proof {
            assert(buf0.skip(32) =~= Seq::<u8>::empty());
            assert(buf@.skip(32) =~= Seq::<u8>::empty());
            assert(pow256(0) == 1);
        }
        while j > 0
            invariant
                buf@.len() == 32,
                buf0.len() == 32,
                j <= 32,
                carry <= 58,
                d < 58,
                forall|q: int| 0 <= q < j as int ==> buf@[q] == buf0[q],
                be_val(buf@.skip(j as int)) + carry * pow256((32 - j) as nat) == 58 * be_val(
                    buf0.skip(j as int),
                ) + d,
            decreases j,
        {
            j -= 1;
            let ghost jj = j as int;
            let ghost bpre = buf@;
            let ghost carry_in = carry as int;
            let v: u32 = (buf[j] as u32) * 58 + carry;
            buf.set(j, (v % 256) as u8);
            carry = v / 256;
            proof {
                let bpost = buf@;
                let p = pow256((31 - jj) as nat);
                lemma_pow256_pos((31 - jj) as nat);
                assert(pow256((32 - jj) as nat) == 256 * p);
                let s1 = bpost.skip(jj);
                let s0 = buf0.skip(jj);
                assert(s1.len() == 32 - jj && s0.len() == 32 - jj);
                assert(s1[0] == (v % 256) as u8);
                assert(s0[0] == buf0[jj]);
                assert(s1.drop_first() =~= bpre.skip(jj + 1));
                assert(s0.drop_first() =~= buf0.skip(jj + 1));
                lemma_be_val_first(s1);
                lemma_be_val_first(s0);
                assert(bpre[jj] == buf0[jj]);
                assert(v == 58 * buf0[jj] + carry_in);
                let vm = (v % 256) as int;
                let vd = (v / 256) as int;
                assert(v == 256 * vd + vm);
                assert(vm * p + vd * (256 * p) == (256 * vd + vm) * p) by (nonlinear_arith);
                assert((58 * buf0[jj] + carry_in) * p == 58 * (buf0[jj] * p) + carry_in * p)
                    by (nonlinear_arith);
                assert(58 * (buf0[jj] * p) + 58 * be_val(buf0.skip(jj + 1)) == 58 * (buf0[jj] * p
                    + be_val(buf0.skip(jj + 1)))) by (nonlinear_arith);
                assert(be_val(s1) + carry * pow256((32 - jj) as nat) == 58 * be_val(s0) + d);
            }
        }
        proof {
            assert(buf@.skip(0) =~= buf@);
            assert(buf0.skip(0) =~= buf0);
            lemma_b58_take_step(raw@, i as int);
            assert(raw@[i as int] == c);
            assert(be_val(buf@) + carry * pow256(32) == b58_val(raw@.take(i as int + 1)));
        }
        if carry != 0 {
            proof {
                lemma_be_val_bounds(buf@);
                lemma_pow256_pos(32);
                let p32 = pow256(32);
                assert(carry as int * p32 >= p32) by (nonlinear_arith)
                    requires
                        carry as int >= 1,
                        p32 >= 1,
                ;
                assert(b58_val(raw@.take(i as int + 1)) >= pow256(32));
                assert(!valid_program_id(raw@)) by {
                    if valid_program_id(raw@) {
                        assert(all_b58(raw@));
                        lemma_b58_prefix_le(raw@, i as int + 1);
                        lemma_pow256_mono((32 - leading_ones(raw@)) as nat, 32);
                        assert(false);
                    }
                }
            }
            return Err(LookupFailure::InvalidIdentifier);
        }
        i += 1;
    }
    proof {
        assert(raw@.take(n as int) =~= raw@);
        assert(be_val(buf@) == b58_val(raw@));
        assert(all_b58(raw@));
    }

    // Leading '1' characters claim the leading zero bytes.
    let mut z: usize = 0;
    while z < n && raw.get_char(z) == '1'
        invariant
            n as int == raw@.len(),
            z <= n,
            forall|q: int| 0 <= q < z as int ==> raw@[q] == '1',
        decreases n - z,
    {
        z += 1;
    }
    proof {
        lemma_leading_ones_char(raw@, z as int);
    }
    if z > 32 {
        proof {
            assert(!valid_program_id(raw@));
        }
        return Err(LookupFailure::InvalidIdentifier);
    }

    // The denoted value must occupy exactly the bytes the leading ones leave
    // free: zero bytes under every leading one, a nonzero byte right after.
    let mut y: usize = 0;
    while y < z
        invariant
            n as int == raw@.len(),
            z <= 32,
            y <= z,
            buf@.len() == 32,
            be_val(buf@) == b58_val(raw@),
            all_b58(raw@),
            leading_ones(raw@) == z as nat,
            forall|q: int| 0 <= q < y as int ==> buf@[q] == 0,
        decreases z - y,
    {
        if buf[y] != 0 {
            proof {
                assert(!valid_program_id(raw@)) by {
                    if valid_program_id(raw@) {
                        lemma_zero_prefix(buf@, z as int);
                        assert(buf@[y as int] == 0);
                        assert(false);
                    }
                }
            }
            return Err(LookupFailure::InvalidIdentifier);
        }
        y += 1;
    }
    if z < 32 {
        if buf[z] == 0 {
            proof {
                assert(!valid_program_id(raw@)) by {
                    if valid_program_id(raw@) {
                        lemma_zero_prefix(buf@, z as int + 1);
                        assert forall|q: int| 0 <= q < z as int + 1 implies buf@[q] == 0 by {}
                        assert(false);
                    }
                }
            }
            return Err(LookupFailure::InvalidIdentifier);
        }
        proof {
            lemma_zero_prefix(buf@, z as int);
            lemma_zero_prefix(buf@, z as int + 1);
            assert(be_val(buf@) < pow256((32 - z) as nat));
            assert(!(forall|q: int| 0 <= q < z as int + 1 ==> buf@[q] == 0)) by {
                assert(buf@[z as int] != 0);
            }
            assert(be_val(buf@) >= pow256((31 - z) as nat));
            assert(valid_program_id(raw@));
        }
    } else {
        proof {
            lemma_zero_prefix(buf@, 32);
            assert(be_val(buf@) < pow256(0));
            assert(valid_program_id(raw@));
        }
    }
    let text = raw.to_owned();
    let id = ProgramIdentifier { text, bytes: buf };
    proof {
        assert(id.wf());
    }
    Ok(id)
}

} // verus!
