//! The RSA engine's register window: key slots filled through an exponent
//! FIFO, modulus and message buffers, and a control register whose busy bit
//! starts a modular exponentiation.
use vstd::prelude::*;
use vstd::arithmetic::power::pow;
use crate::regpage::splice;

verus! {

pub const RSA_BUF_LEN: usize = 0x100;

pub const REG_CNT: usize = 0x000;
pub const REG_UNK: usize = 0x0F0;
pub const REG_SLOT_BASE: usize = 0x100;
pub const REG_EXP_FIFO: usize = 0x200;
pub const MOD_START: usize = 0x400;
pub const TXT_START: usize = 0x800;

/// The unsigned number that the big-endian bytes `s` encode.
pub open spec fn be_value(s: Seq<u8>) -> nat
    decreases s.len(),
{
    if s.len() == 0 {
        0
    } else {
        be_value(s.drop_last()) * 256 + s.last() as nat
    }
}

/// `x` modulo 256^n as exactly `n` big-endian bytes.
pub open spec fn be_bytes(x: nat, n: nat) -> Seq<u8>
    decreases n,
{
    if n == 0 {
        Seq::empty()
    } else {
        be_bytes(x / 256, (n - 1) as nat).push((x % 256) as u8)
    }
}

/// `base ^ exp mod modulus` on big-endian numbers, as 256 big-endian bytes.
pub open spec fn mod_exp_bytes(base: Seq<u8>, exp: Seq<u8>, modulus: Seq<u8>) -> Seq<u8> {
    be_bytes((pow(be_value(base) as int, be_value(exp)) % (be_value(modulus) as int)) as nat, 256)
}

/// Relies on openssl's `BigNum::from_slice` (reads big-endian bytes; it
/// asserts a length that fits a C `int`, which 256 does),
/// `BigNumRef::mod_exp` (`a^p mod m`) and `BigNumRef::to_vec_padded`
/// (big-endian bytes, zero-padded to the given length). Each returns a
/// `Result` whose error (an `ErrorStack`, such as a failed allocation)
/// gives `None`.
#[verifier::external_body]
fn big_mod_exp(base: &[u8; 256], exp: &[u8; 256], modulus: &[u8; 256]) -> (r: Option<Vec<u8>>)
    requires
        be_value(modulus@) > 0,
    ensures
        r is Some ==> r->0@ == mod_exp_bytes(base@, exp@, modulus@),
{
    let a = openssl::bn::BigNum::from_slice(&base[..]).ok()?;
    let p = openssl::bn::BigNum::from_slice(&exp[..]).ok()?;
    let m = openssl::bn::BigNum::from_slice(&modulus[..]).ok()?;
    let mut ctx = openssl::bn::BigNumContext::new().ok()?;
    let mut res = openssl::bn::BigNum::new().ok()?;
    res.mod_exp(&a, &p, &m, &mut ctx).ok()?;
    res.to_vec_padded(RSA_BUF_LEN as i32).ok()
}

/// Each 4-byte word of `s` with its bytes reversed.
pub open spec fn byte_swapped(s: Seq<u8>) -> Seq<u8> {
    Seq::new(s.len(), |k: int| s[4 * (k / 4) + 3 - k % 4])
}

/// The 4-byte words of a 256-byte `s` in reverse order.
pub open spec fn word_swapped(s: Seq<u8>) -> Seq<u8> {
    Seq::new(s.len(), |k: int| s[252 - 4 * (k / 4) + k % 4])
}

/// Reverses the bytes within each 4-byte word of `buf`.
pub fn byte_swap_inner(buf: &mut [u8; 256])
    ensures
        final(buf)@ == byte_swapped(old(buf)@),
{
    let src: [u8; 256] = *buf;
    let mut k: usize = 0;
    while k < 256
        invariant
            k <= 256,
            src@ == old(buf)@,
            forall|j: int| 0 <= j < k ==> #[trigger] buf@[j] == src@[4 * (j / 4) + 3 - j % 4],
        decreases 256 - k,
    {
        buf[k] = src[4 * (k / 4) + 3 - k % 4];
        k = k + 1;
    }
    assert(buf@ =~= byte_swapped(old(buf)@));
}

/// Reverses the order of the 4-byte words of `buf`.
pub fn word_swap(buf: &mut [u8; 256])
    ensures
        final(buf)@ == word_swapped(old(buf)@),
{
    let src: [u8; 256] = *buf;
    let mut k: usize = 0;
    while k < 256
        invariant
            k <= 256,
            src@ == old(buf)@,
            forall|j: int| 0 <= j < k ==> #[trigger] buf@[j] == src@[252 - 4 * (j / 4) + j % 4],
        decreases 256 - k,
    {
        buf[k] = src[252 - 4 * (k / 4) + k % 4];
        k = k + 1;
    }
    assert(buf@ =~= word_swapped(old(buf)@));
}

/// One key slot: the exponent bytes and how many of them the FIFO has filled.
#[derive(Clone, Copy)]
pub struct RsaKeyslot {
    pub write_pos: usize,
    pub buf: [u8; 256],
}

/// The engine's buffers behind its register window.
pub struct RsaDeviceState {
    pub slots: [RsaKeyslot; 4],
    pub modulus: [u8; 256],
    pub message: [u8; 256],
}

impl RsaKeyslot {
    pub fn empty() -> (r: RsaKeyslot)
        ensures
            r.write_pos == 0,
            r.buf@ == Seq::new(256, |k: int| 0u8),
    {
        let r = RsaKeyslot { write_pos: 0, buf: [0u8; 256] };
        assert(r.buf@ =~= Seq::new(256, |k: int| 0u8));
        r
    }
}

impl Default for RsaDeviceState {
    fn default() -> (r: RsaDeviceState)
        ensures
            forall|i: int| 0 <= i < 4 ==> (#[trigger] r.slots@[i]).write_pos == 0
                && r.slots@[i].buf@ == Seq::new(256, |k: int| 0u8),
            r.modulus@ == Seq::new(256, |k: int| 0u8),
            r.message@ == Seq::new(256, |k: int| 0u8),
    {
        let s = RsaKeyslot::empty();
        let r = RsaDeviceState { slots: [s, s, s, s], modulus: [0u8; 256], message: [0u8; 256] };
        assert(r.modulus@ =~= Seq::new(256, |k: int| 0u8));
        assert(r.message@ =~= Seq::new(256, |k: int| 0u8));
        r
    }
}

/// The abstract state of the engine.
pub struct RsaModel {
    pub cnt: u32,
    pub unk: u32,
    pub slot_cnt: Seq<u32>,
    pub slot_len: Seq<u32>,
    pub exp_fifo: u32,
    pub write_pos: Seq<usize>,
    pub keys: Seq<Seq<u8>>,
    pub modulus: Seq<u8>,
    pub message: Seq<u8>,
}

/// The RSA engine: its registers and its buffers.
pub struct RsaDevice {
    pub cnt: u32,
    pub unk: u32,
    pub slot_cnt: [u32; 4],
    pub slot_len: [u32; 4],
    pub exp_fifo: u32,
    pub internal_state: RsaDeviceState,
}

impl View for RsaDevice {
    type V = RsaModel;

    open spec fn view(&self) -> RsaModel {
        RsaModel {
            cnt: self.cnt,
            unk: self.unk,
            slot_cnt: self.slot_cnt@,
            slot_len: self.slot_len@,
            exp_fifo: self.exp_fifo,
            write_pos: Seq::new(4, |i: int| self.internal_state.slots@[i].write_pos),
            keys: Seq::new(4, |i: int| self.internal_state.slots@[i].buf@),
            modulus: self.internal_state.modulus@,
            message: self.internal_state.message@,
        }
    }
}

pub open spec fn cnt_busy(cnt: u32) -> bool {
    cnt & 1 == 1
}

pub open spec fn cnt_keyslot(cnt: u32) -> u32 {
    (cnt >> 4) & 3
}

pub open spec fn cnt_little_endian(cnt: u32) -> bool {
    (cnt >> 8) & 1 == 1
}

pub open spec fn cnt_normal_order(cnt: u32) -> bool {
    (cnt >> 9) & 1 == 1
}

pub open spec fn slot_key_set(slot_cnt: u32) -> bool {
    slot_cnt & 1 == 1
}

pub open spec fn slot_key_prot(slot_cnt: u32) -> bool {
    (slot_cnt >> 1) & 1 == 1
}

/// The effect of writing a key slot's control register: a slot whose key is
/// not marked set starts refilling from the first byte.
pub open spec fn slot_cnt_update_spec(m: RsaModel, k: int) -> RsaModel {
    if slot_key_set(m.slot_cnt[k]) {
        m
    } else {
        RsaModel { write_pos: m.write_pos.update(k, 0), ..m }
    }
}

/// The little-endian bytes of `w`.
pub open spec fn le_bytes(w: u32) -> Seq<u8> {
    seq![w as u8, (w >> 8) as u8, (w >> 16) as u8, (w >> 24) as u8]
}

/// The effect of pushing the exponent FIFO register's word into the key slot
/// that the control register selects: the first word clears the slot, and
/// words past its end, or into a slot whose key is set or protected, are
/// dropped.
pub open spec fn exp_fifo_write_spec(m: RsaModel) -> RsaModel {
    let k = cnt_keyslot(m.cnt) as int;
    let pos = m.write_pos[k];
    if slot_key_set(m.slot_cnt[k]) || slot_key_prot(m.slot_cnt[k]) || pos + 4 > RSA_BUF_LEN {
        m
    } else {
        let cleared = if pos == 0 { Seq::new(256, |j: int| 0u8) } else { m.keys[k] };
        RsaModel {
            write_pos: m.write_pos.update(k, (pos + 4) as usize),
            keys: m.keys.update(k, splice(cleared, pos as int, le_bytes(m.exp_fifo))),
            ..m
        }
    }
}

/// The big-endian operands handed to the exponentiation, in the order
/// (base, exponent, modulus), after the swizzles that `cnt` selects; a base
/// under an even modulus is replaced by zero, as the hardware does.
pub open spec fn rsa_operands(m: RsaModel) -> (Seq<u8>, Seq<u8>, Seq<u8>) {
    let k = cnt_keyslot(m.cnt) as int;
    let b0 = if cnt_little_endian(m.cnt) { m.message } else { byte_swapped(m.message) };
    let e0 = if cnt_little_endian(m.cnt) { m.keys[k] } else { byte_swapped(m.keys[k]) };
    let n0 = if cnt_little_endian(m.cnt) { m.modulus } else { byte_swapped(m.modulus) };
    let b1 = if cnt_normal_order(m.cnt) { b0 } else { word_swapped(b0) };
    let n1 = if cnt_normal_order(m.cnt) { n0 } else { word_swapped(n0) };
    let b2 = if n1[255] % 2 == 1 { b1 } else { Seq::new(256, |j: int| 0u8) };
    (b2, e0, n1)
}

/// The message buffer after a result `res` (256 big-endian bytes) comes
/// back, swizzled back as `cnt` selects.
pub open spec fn rsa_result_message(cnt: u32, res: Seq<u8>) -> Seq<u8> {
    let r1 = if cnt_little_endian(cnt) { res } else { byte_swapped(res) };
    if cnt_normal_order(cnt) { r1 } else { word_swapped(r1) }
}

/// Whether `out` may be what the exponentiation gave for `m`: the exact
/// result, or nothing where the computation failed or the modulus is zero.
pub open spec fn rsa_outcome_ok(m: RsaModel, out: Option<Seq<u8>>) -> bool {
    let (b, e, n) = rsa_operands(m);
    match out {
        Some(r) => be_value(n) > 0 && r == mod_exp_bytes(b, e, n),
        None => true,
    }
}

/// The effect of a write to the control register, given the outcome of the
/// exponentiation: with the busy bit set and a key in the selected slot, the
/// message buffer receives the result (zero where there is none); the busy
/// bit is cleared in any case.
pub open spec fn cnt_update_spec(m: RsaModel, out: Option<Seq<u8>>) -> RsaModel {
    if !cnt_busy(m.cnt) {
        m
    } else {
        let k = cnt_keyslot(m.cnt) as int;
        let done = m.cnt & !1u32;
        if !slot_key_set(m.slot_cnt[k]) {
            RsaModel { cnt: done, ..m }
        } else {
            let res = match out {
                Some(r) => r,
                None => Seq::new(256, |j: int| 0u8),
            };
            RsaModel { cnt: done, message: rsa_result_message(m.cnt, res), ..m }
        }
    }
}

/// The control register and the length register of key slot `keyslot`.
pub fn get_keydata(dev: &RsaDevice, keyslot: usize) -> (r: (u32, u32))
    requires
        keyslot < 4,
    ensures
        r == (dev@.slot_cnt[keyslot as int], dev@.slot_len[keyslot as int]),
{
    (dev.slot_cnt[keyslot], dev.slot_len[keyslot])
}

/// Write effect of a key slot's control register.
pub fn reg_slot_cnt_update(dev: &mut RsaDevice, keyslot: usize)
    requires
        keyslot < 4,
    ensures
        final(dev)@ == slot_cnt_update_spec(old(dev)@, keyslot as int),
{
    let (slot_cnt, _) = get_keydata(dev, keyslot);
    if slot_cnt & 1 == 1 {
        return;
    }
    let mut s = dev.internal_state.slots[keyslot];
    s.write_pos = 0;
    dev.internal_state.slots[keyslot] = s;
    assert(dev@.write_pos =~= old(dev)@.write_pos.update(keyslot as int, 0));
    assert(dev@.keys =~= old(dev)@.keys);
}

fn copy_out(src: &[u8; 256], pos: usize, dest: &mut Vec<u8>)
    requires
        pos + old(dest)@.len() <= 256,
    ensures
        final(dest)@ == src@.subrange(pos as int, pos + old(dest)@.len()),
{
    let n = dest.len();
    let mut i: usize = 0;
    while i < n
        invariant
            n == dest@.len(),
            n == old(dest)@.len(),
            pos + n <= 256,
            i <= n,
            forall|j: int| 0 <= j < i ==> #[trigger] dest@[j] == src@[pos + j],
        decreases n - i,
    {
        dest.set(i, src[pos + i]);
        i = i + 1;
    }
    assert(dest@ =~= src@.subrange(pos as int, pos + n));
}

fn copy_in(dst: &mut [u8; 256], pos: usize, src: &[u8])
    requires
        pos + src@.len() <= 256,
    ensures
        final(dst)@ == splice(old(dst)@, pos as int, src@),
{
    let n = src.len();
    let mut i: usize = 0;
    while i < n
        invariant
            n == src@.len(),
            pos + n <= 256,
            i <= n,
            dst@ == splice(old(dst)@, pos as int, src@.take(i as int)),
        decreases n - i,
    {
        dst[pos + i] = src[i];
        i = i + 1;
        assert(dst@ =~= splice(old(dst)@, pos as int, src@.take(i as int)));
    }
    assert(src@.take(n as int) =~= src@);
}

/// Read effect of the modulus buffer: `dest` receives its bytes from
/// `buf_pos` on.
pub fn reg_mod_read(dev: &RsaDevice, buf_pos: usize, dest: &mut Vec<u8>)
    requires
        buf_pos + old(dest)@.len() <= RSA_BUF_LEN,
    ensures
        final(dest)@ == dev@.modulus.subrange(buf_pos as int, buf_pos + old(dest)@.len()),
{
    copy_out(&dev.internal_state.modulus, buf_pos, dest);
}

/// Write effect of the modulus buffer: `src` lands at `buf_pos`.
pub fn reg_mod_write(dev: &mut RsaDevice, buf_pos: usize, src: &[u8])
    requires
        buf_pos + src@.len() <= RSA_BUF_LEN,
    ensures
        final(dev)@ == (RsaModel { modulus: splice(old(dev)@.modulus, buf_pos as int, src@), ..old(dev)@ }),
{
    copy_in(&mut dev.internal_state.modulus, buf_pos, src);
    assert(dev@.write_pos =~= old(dev)@.write_pos);
    assert(dev@.keys =~= old(dev)@.keys);
}

/// Read effect of the message buffer: `dest` receives its bytes from
/// `buf_pos` on.
pub fn reg_txt_read(dev: &RsaDevice, buf_pos: usize, dest: &mut Vec<u8>)
    requires
        buf_pos + old(dest)@.len() <= RSA_BUF_LEN,
    ensures
        final(dest)@ == dev@.message.subrange(buf_pos as int, buf_pos + old(dest)@.len()),
{
    copy_out(&dev.internal_state.message, buf_pos, dest);
}

/// Write effect of the message buffer: `src` lands at `buf_pos`.
pub fn reg_txt_write(dev: &mut RsaDevice, buf_pos: usize, src: &[u8])
    requires
        buf_pos + src@.len() <= RSA_BUF_LEN,
    ensures
        final(dev)@ == (RsaModel { message: splice(old(dev)@.message, buf_pos as int, src@), ..old(dev)@ }),
{
    copy_in(&mut dev.internal_state.message, buf_pos, src);
    assert(dev@.write_pos =~= old(dev)@.write_pos);
    assert(dev@.keys =~= old(dev)@.keys);
}

/// Write effect of the exponent FIFO register.
pub fn reg_exp_fifo_write(dev: &mut RsaDevice)
    ensures
        final(dev)@ == exp_fifo_write_spec(old(dev)@),
{
    let c = dev.cnt;
    assert((c >> 4) & 3 < 4) by (bit_vector);
    let keyslot = ((c >> 4) & 3) as usize;
    let (slot_cnt, _) = get_keydata(dev, keyslot);
    let mut s = dev.internal_state.slots[keyslot];
    let pos = s.write_pos;
    if slot_cnt & 1 == 1 || (slot_cnt >> 1) & 1 == 1 || pos > RSA_BUF_LEN - 4 {
        return;
    }
    if pos == 0 {
        s.buf = [0u8; 256];
    }
    let w = dev.exp_fifo;
    let ghost cleared = s.buf@;
    s.buf[pos] = w as u8;
    s.buf[pos + 1] = (w >> 8) as u8;
    s.buf[pos + 2] = (w >> 16) as u8;
    s.buf[pos + 3] = (w >> 24) as u8;
    assert(s.buf@ =~= splice(cleared, pos as int, le_bytes(w)));
    s.write_pos = pos + 4;
    dev.internal_state.slots[keyslot] = s;
    proof {
        let m = old(dev)@;
        let k = keyslot as int;
        if pos == 0 {
            assert(cleared =~= Seq::new(256, |j: int| 0u8));
        }
        assert(dev@.write_pos =~= m.write_pos.update(k, (pos + 4) as usize));
        assert(dev@.keys =~= m.keys.update(k, splice(if pos == 0 { Seq::new(256, |j: int| 0u8) } else { m.keys[k] }, pos as int, le_bytes(w))));
    }
}

proof fn lemma_be_bytes_len(x: nat, n: nat)
    ensures
        be_bytes(x, n).len() == n,
    decreases n,
{
    if n > 0 {
        lemma_be_bytes_len(x / 256, (n - 1) as nat);
    }
}

proof fn lemma_be_value_zero(s: Seq<u8>)
    requires
        be_value(s) == 0,
    ensures
        forall|j: int| 0 <= j < s.len() ==> s[j] == 0,
    decreases s.len(),
{
    if s.len() > 0 {
        lemma_be_value_zero(s.drop_last());
        assert forall|j: int| 0 <= j < s.len() implies s[j] == 0 by {
            if j < s.len() - 1 {
                assert(s[j] == s.drop_last()[j]);
            }
        }
    }
}

fn is_nonzero(buf: &[u8; 256]) -> (r: bool)
    ensures
        r == (be_value(buf@) > 0),
{
    let mut i: usize = 0;
    while i < 256
        invariant
            i <= 256,
            forall|j: int| 0 <= j < i ==> buf@[j] == 0,
        decreases 256 - i,
    {
        if buf[i] != 0 {
            proof {
                if be_value(buf@) == 0 {
                    lemma_be_value_zero(buf@);
                }
            }
            return true;
        }
        i = i + 1;
    }
    proof {
        let z = buf@;
        assert(forall|j: int| 0 <= j < z.len() ==> z[j] == 0);
        if be_value(z) > 0 {
            lemma_be_value_of_zeros(z);
        }
    }
    false
}

proof fn lemma_be_value_of_zeros(s: Seq<u8>)
    requires
        forall|j: int| 0 <= j < s.len() ==> s[j] == 0,
    ensures
        be_value(s) == 0,
    decreases s.len(),
{
    if s.len() > 0 {
        let t = s.drop_last();
        assert forall|j: int| 0 <= j < t.len() implies t[j] == 0 by {
            assert(t[j] == s[j]);
        }
        lemma_be_value_of_zeros(t);
    }
}

/// The operands that a control-register write hands to the
/// exponentiation, or `None` where it starts none: the busy bit is clear,
/// the selected slot holds no key, or the modulus is zero.
pub open spec fn rsa_request(m: RsaModel) -> Option<(Seq<u8>, Seq<u8>, Seq<u8>)> {
    let k = cnt_keyslot(m.cnt) as int;
    if cnt_busy(m.cnt) && slot_key_set(m.slot_cnt[k]) && be_value(rsa_operands(m).2) > 0 {
        Some(rsa_operands(m))
    } else {
        None
    }
}

pub open spec fn result_view(res: Option<[u8; 256]>) -> Option<Seq<u8>> {
    match res {
        Some(a) => Some(a@),
        None => None,
    }
}

/// The operands of the exponentiation that the control register asks for,
/// as `rsa_request` gives them.
pub fn rsa_request_operands(dev: &RsaDevice) -> (r: Option<([u8; 256], [u8; 256], [u8; 256])>)
    ensures
        match r {
            Some((b, e, n)) => rsa_request(dev@) == Some((b@, e@, n@)),
            None => rsa_request(dev@) is None,
        },
{
    let cnt = dev.cnt;
    if cnt & 1 != 1 {
        return None;
    }
    assert((cnt >> 4) & 3 < 4) by (bit_vector);
    let keyslot = ((cnt >> 4) & 3) as usize;
    let (slot_cnt, _) = get_keydata(dev, keyslot);
    if slot_cnt & 1 != 1 {
        return None;
    }
    let mut base_buf: [u8; 256] = dev.internal_state.message;
    let mut exp_buf: [u8; 256] = dev.internal_state.slots[keyslot].buf;
    let mut mod_buf: [u8; 256] = dev.internal_state.modulus;
    assert(exp_buf@ == dev@.keys[keyslot as int]);
    if (cnt >> 8) & 1 != 1 {
        byte_swap_inner(&mut mod_buf);
        byte_swap_inner(&mut base_buf);
        byte_swap_inner(&mut exp_buf);
    }
    if (cnt >> 9) & 1 != 1 {
        word_swap(&mut mod_buf);
        word_swap(&mut base_buf);
    }
    if mod_buf[255] % 2 == 0 {
        base_buf = [0u8; 256];
        assert(base_buf@ =~= Seq::new(256, |j: int| 0u8));
    }
    assert(rsa_operands(dev@) == (base_buf@, exp_buf@, mod_buf@));
    if !is_nonzero(&mod_buf) {
        return None;
    }
    Some((base_buf, exp_buf, mod_buf))
}

/// Completes a control-register write given what the exponentiation gave
/// (`res`, 256 big-endian bytes, or `None` where it failed or none was
/// asked for): exactly `cnt_update_spec`.
pub fn reg_cnt_complete(dev: &mut RsaDevice, res: Option<[u8; 256]>)
    ensures
        final(dev)@ == cnt_update_spec(old(dev)@, result_view(res)),
{
    let cnt = dev.cnt;
    if cnt & 1 != 1 {
        return;
    }
    assert((cnt >> 4) & 3 < 4) by (bit_vector);
    let keyslot = ((cnt >> 4) & 3) as usize;
    let (slot_cnt, _) = get_keydata(dev, keyslot);
    if slot_cnt & 1 != 1 {
        dev.cnt = cnt & !1u32;
        return;
    }
    let mut msg: [u8; 256] = match res {
        Some(a) => a,
        None => {
            let z = [0u8; 256];
            assert(z@ =~= Seq::new(256, |j: int| 0u8));
            z
        },
    };
    if (cnt >> 8) & 1 != 1 {
        byte_swap_inner(&mut msg);
    }
    if (cnt >> 9) & 1 != 1 {
        word_swap(&mut msg);
    }
    dev.internal_state.message = msg;
    dev.cnt = cnt & !1u32;
    proof {
        let r = match result_view(res) {
            Some(r) => r,
            None => Seq::new(256, |j: int| 0u8),
        };
        assert(msg@ == rsa_result_message(cnt, r));
        assert(dev@.write_pos =~= old(dev)@.write_pos);
        assert(dev@.keys =~= old(dev)@.keys);
    }
}

/// Write effect of the control register: with the busy bit set and a key in
/// the selected slot, runs the exponentiation on that key, the modulus and
/// the message, and stores the result in the message buffer; the busy bit
/// is cleared. Where the computation fails, the message is zeroed.
pub fn reg_cnt_update(dev: &mut RsaDevice)
    ensures
        exists|out: Option<Seq<u8>>|
            #[trigger] rsa_outcome_ok(old(dev)@, out) && final(dev)@ == cnt_update_spec(old(dev)@, out),
        rsa_request(old(dev)@) is None ==> final(dev)@ == cnt_update_spec(old(dev)@, None),
        ({
            let (b, e, n) = rsa_operands(old(dev)@);
            rsa_request(old(dev)@) is Some ==> final(dev)@ == cnt_update_spec(
                old(dev)@,
                Some(mod_exp_bytes(b, e, n)),
            ) || final(dev)@ == cnt_update_spec(old(dev)@, None)
        }),
{
    let res: Option<[u8; 256]> = match rsa_request_operands(dev) {
        None => None,
        Some((b, e, n)) => match big_mod_exp(&b, &e, &n) {
            None => None,
            Some(v) => {
                proof {
                    let (bs, es, ns) = rsa_operands(dev@);
                    lemma_be_bytes_len((pow(be_value(bs) as int, be_value(es)) % (be_value(ns) as int)) as nat, 256);
                }
                let mut a: [u8; 256] = [0u8; 256];
                let mut i: usize = 0;
                while i < 256
                    invariant
                        i <= 256,
                        v@.len() == 256,
                        forall|j: int| 0 <= j < i ==> #[trigger] a@[j] == v@[j],
                    decreases 256 - i,
                {
                    a[i] = v[i];
                    i = i + 1;
                }
                assert(a@ =~= v@);
                Some(a)
            },
        },
    };
    let ghost out = result_view(res);
    assert(rsa_outcome_ok(old(dev)@, out));
    reg_cnt_complete(dev, res);
}

/// The engine after reset: every register, key slot and buffer zero.
pub open spec fn rsa_idle() -> RsaModel {
    RsaModel {
        cnt: 0,
        unk: 0,
        slot_cnt: seq![0u32, 0u32, 0u32, 0u32],
        slot_len: seq![0u32, 0u32, 0u32, 0u32],
        exp_fifo: 0,
        write_pos: seq![0usize, 0usize, 0usize, 0usize],
        keys: Seq::new(4, |i: int| Seq::new(256, |k: int| 0u8)),
        modulus: Seq::new(256, |k: int| 0u8),
        message: Seq::new(256, |k: int| 0u8),
    }
}

/// The register that starts at `r` (a multiple of 4), if the window has one.
pub open spec fn reg_value(m: RsaModel, r: int) -> Option<u32> {
    if r == REG_CNT {
        Some(m.cnt)
    } else if r == REG_UNK {
        Some(m.unk)
    } else if r == REG_EXP_FIFO {
        Some(m.exp_fifo)
    } else if REG_SLOT_BASE <= r < REG_SLOT_BASE + 0x40 && (r - REG_SLOT_BASE) % 0x10 == 0 {
        Some(m.slot_cnt[(r - REG_SLOT_BASE) / 0x10])
    } else if REG_SLOT_BASE <= r < REG_SLOT_BASE + 0x40 && (r - REG_SLOT_BASE) % 0x10 == 4 {
        Some(m.slot_len[(r - REG_SLOT_BASE) / 0x10])
    } else {
        None
    }
}

/// The 32-bit word whose little-endian bytes are the first four of `b`.
pub open spec fn le_word(b: Seq<u8>) -> u32 {
    (b[0] as u32) | ((b[1] as u32) << 8u32) | ((b[2] as u32) << 16u32) | ((b[3] as u32) << 24u32)
}

/// The byte at `off` of the window, as a read sees it.
pub open spec fn rsa_peek(m: RsaModel, off: int) -> u8 {
    if MOD_START <= off < MOD_START + RSA_BUF_LEN {
        m.modulus[off - MOD_START]
    } else if TXT_START <= off < TXT_START + RSA_BUF_LEN {
        m.message[off - TXT_START]
    } else {
        match reg_value(m, off - off % 4) {
            Some(w) => le_bytes(w)[off % 4],
            None => 0,
        }
    }
}

/// `m` with the register at `r` set to `w`, before any write effect.
pub open spec fn with_reg(m: RsaModel, r: int, w: u32) -> RsaModel {
    if r == REG_CNT {
        RsaModel { cnt: w, ..m }
    } else if r == REG_UNK {
        RsaModel { unk: w, ..m }
    } else if r == REG_EXP_FIFO {
        RsaModel { exp_fifo: w, ..m }
    } else if (r - REG_SLOT_BASE) % 0x10 == 0 {
        RsaModel { slot_cnt: m.slot_cnt.update((r - REG_SLOT_BASE) / 0x10, w), ..m }
    } else {
        RsaModel { slot_len: m.slot_len.update((r - REG_SLOT_BASE) / 0x10, w), ..m }
    }
}

/// The state after `src` is written at `off` and the write effect of the
/// register written has run, given the outcome `out` of an exponentiation
/// that a control-register write starts. Writes outside the registers and
/// buffers are dropped; buffer writes past a buffer's end are cut off.
pub open spec fn rsa_write_spec(m: RsaModel, off: int, src: Seq<u8>, out: Option<Seq<u8>>) -> RsaModel {
    if MOD_START <= off < MOD_START + RSA_BUF_LEN {
        RsaModel { modulus: splice(m.modulus, off - MOD_START, src), ..m }
    } else if TXT_START <= off < TXT_START + RSA_BUF_LEN {
        RsaModel { message: splice(m.message, off - TXT_START, src), ..m }
    } else {
        let r = off - off % 4;
        match reg_value(m, r) {
            None => m,
            Some(w) => {
                let m1 = with_reg(m, r, le_word(splice(le_bytes(w), off % 4, src)));
                if r == REG_CNT {
                    cnt_update_spec(m1, out)
                } else if r == REG_EXP_FIFO {
                    exp_fifo_write_spec(m1)
                } else if r != REG_UNK && (r - REG_SLOT_BASE) % 0x10 == 0 {
                    slot_cnt_update_spec(m1, (r - REG_SLOT_BASE) / 0x10)
                } else {
                    m1
                }
            },
        }
    }
}

/// Whether `out` may be the outcome of the exponentiation that writing
/// `src` at `off` starts (any outcome, where the write starts none).
pub open spec fn rsa_write_outcome_ok(m: RsaModel, off: int, src: Seq<u8>, out: Option<Seq<u8>>) -> bool {
    let r = off - off % 4;
    if r == REG_CNT && !(MOD_START <= off < MOD_START + RSA_BUF_LEN) && !(TXT_START <= off
        < TXT_START + RSA_BUF_LEN) {
        rsa_outcome_ok(with_reg(m, r, le_word(splice(le_bytes(m.cnt), off % 4, src))), out)
    } else {
        true
    }
}

/// What a write of `src` at `off` may leave behind.
pub open spec fn rsa_write_rel(old: RsaModel, new: RsaModel, off: int, src: Seq<u8>) -> bool {
    exists|out: Option<Seq<u8>>|
        #[trigger] rsa_write_outcome_ok(old, off, src, out) && new == rsa_write_spec(old, off, src, out)
}

fn word_bytes(w: u32) -> (r: Vec<u8>)
    ensures
        r@ == le_bytes(w),
{
    let r = vec![w as u8, (w >> 8) as u8, (w >> 16) as u8, (w >> 24) as u8];
    assert(r@ =~= le_bytes(w));
    r
}

/// `w` with the bytes of `src` written over its little-endian bytes from
/// byte `k` on.
fn merge_word(w: u32, k: usize, src: &[u8]) -> (r: u32)
    requires
        k < 4,
    ensures
        r == le_word(splice(le_bytes(w), k as int, src@)),
{
    let mut b = word_bytes(w);
    let n = src.len();
    let mut i: usize = 0;
    while i < n && i < 4 - k
        invariant
            n == src@.len(),
            k < 4,
            i <= n,
            b@ == splice(le_bytes(w), k as int, src@.take(i as int)),
        decreases n - i,
    {
        b.set(k + i, src[i]);
        i = i + 1;
        assert(b@ =~= splice(le_bytes(w), k as int, src@.take(i as int)));
    }
    assert(b@ =~= splice(le_bytes(w), k as int, src@));
    (b[0] as u32) | ((b[1] as u32) << 8u32) | ((b[2] as u32) << 16u32) | ((b[3] as u32) << 24u32)
}

impl RsaDevice {
    /// An idle engine: every register, key slot and buffer zero.
    pub fn new() -> (r: RsaDevice)
        ensures
            r@ == rsa_idle(),
    {
        let r = RsaDevice {
            cnt: 0,
            unk: 0,
            slot_cnt: [0u32; 4],
            slot_len: [0u32; 4],
            exp_fifo: 0,
            internal_state: RsaDeviceState::default(),
        };
        assert(r@.slot_cnt =~= seq![0u32, 0u32, 0u32, 0u32]);
        assert(r@.slot_len =~= seq![0u32, 0u32, 0u32, 0u32]);
        assert(r@.write_pos =~= seq![0usize, 0usize, 0usize, 0usize]);
        assert(r@.keys =~= Seq::new(4, |i: int| Seq::new(256, |k: int| 0u8)));
        r
    }

    fn reg_at(&self, r: usize) -> (v: Option<u32>)
        ensures
            v == reg_value(self@, r as int),
    {
        if r == REG_CNT {
            Some(self.cnt)
        } else if r == REG_UNK {
            Some(self.unk)
        } else if r == REG_EXP_FIFO {
            Some(self.exp_fifo)
        } else if REG_SLOT_BASE <= r && r < REG_SLOT_BASE + 0x40 && (r - REG_SLOT_BASE) % 0x10 == 0 {
            Some(self.slot_cnt[(r - REG_SLOT_BASE) / 0x10])
        } else if REG_SLOT_BASE <= r && r < REG_SLOT_BASE + 0x40 && (r - REG_SLOT_BASE) % 0x10 == 4 {
            Some(self.slot_len[(r - REG_SLOT_BASE) / 0x10])
        } else {
            None
        }
    }

    fn peek_byte(&self, off: usize) -> (b: u8)
        ensures
            b == rsa_peek(self@, off as int),
    {
        if MOD_START <= off && off < MOD_START + RSA_BUF_LEN {
            self.internal_state.modulus[off - MOD_START]
        } else if TXT_START <= off && off < TXT_START + RSA_BUF_LEN {
            self.internal_state.message[off - TXT_START]
        } else {
            match self.reg_at(off - off % 4) {
                Some(w) => {
                    let b = word_bytes(w);
                    b[off % 4]
                },
                None => 0,
            }
        }
    }

    /// Reads `buf.len()` bytes of the window from `off` on.
    pub fn read_reg(&self, off: usize, buf: &mut Vec<u8>)
        requires
            off + old(buf)@.len() <= usize::MAX,
        ensures
            final(buf)@.len() == old(buf)@.len(),
            forall|k: int| 0 <= k < old(buf)@.len() ==> #[trigger] final(buf)@[k] == rsa_peek(self@, off + k),
    {
        let n = buf.len();
        let mut i: usize = 0;
        while i < n
            invariant
                n == buf@.len(),
                n == old(buf)@.len(),
                off + n <= usize::MAX,
                i <= n,
                forall|k: int| 0 <= k < i ==> #[trigger] buf@[k] == rsa_peek(self@, off + k),
            decreases n - i,
        {
            let b = self.peek_byte(off + i);
            buf.set(i, b);
            i = i + 1;
        }
    }

    /// Writes `src` into the window at `off`, then runs the write effect of
    /// the register or buffer written.
    pub fn write_reg(&mut self, off: usize, src: &[u8])
        ensures
            rsa_write_rel(old(self)@, final(self)@, off as int, src@),
    {
        let ghost m = old(self)@;
        if MOD_START <= off && off < MOD_START + RSA_BUF_LEN {
            let pos = off - MOD_START;
            let n = if src.len() < RSA_BUF_LEN - pos { src.len() } else { RSA_BUF_LEN - pos };
            let part = vstd::slice::slice_subrange(src, 0, n);
            reg_mod_write(self, pos, part);
            assert(splice(m.modulus, pos as int, part@) =~= splice(m.modulus, pos as int, src@));
            assert(rsa_write_outcome_ok(m, off as int, src@, None));
            return;
        }
        if TXT_START <= off && off < TXT_START + RSA_BUF_LEN {
            let pos = off - TXT_START;
            let n = if src.len() < RSA_BUF_LEN - pos { src.len() } else { RSA_BUF_LEN - pos };
            let part = vstd::slice::slice_subrange(src, 0, n);
            reg_txt_write(self, pos, part);
            assert(splice(m.message, pos as int, part@) =~= splice(m.message, pos as int, src@));
            assert(rsa_write_outcome_ok(m, off as int, src@, None));
            return;
        }
        let r = off - off % 4;
        match self.reg_at(r) {
            None => {
                assert(self@ == rsa_write_spec(m, off as int, src@, None));
                assert(rsa_write_outcome_ok(m, off as int, src@, None));
            },
            Some(w) => {
                let w2 = merge_word(w, off % 4, src);
                if r == REG_CNT {
                    self.cnt = w2;
                    assert(self@ == with_reg(m, r as int, w2));
                    reg_cnt_update(self);
                    let ghost m1 = with_reg(m, r as int, w2);
                    let ghost out = choose|out: Option<Seq<u8>>|
                        #[trigger] rsa_outcome_ok(m1, out) && self@ == cnt_update_spec(m1, out);
                    assert(rsa_write_outcome_ok(m, off as int, src@, out));
                    assert(self@ == rsa_write_spec(m, off as int, src@, out));
                } else {
                    if r == REG_UNK {
                        self.unk = w2;
                    } else if r == REG_EXP_FIFO {
                        self.exp_fifo = w2;
                        assert(self@ == with_reg(m, r as int, w2));
                        reg_exp_fifo_write(self);
                    } else if (r - REG_SLOT_BASE) % 0x10 == 0 {
                        let k = (r - REG_SLOT_BASE) / 0x10;
                        self.slot_cnt[k] = w2;
                        assert(self@.slot_cnt =~= m.slot_cnt.update(k as int, w2));
                        assert(self@ == with_reg(m, r as int, w2));
                        reg_slot_cnt_update(self, k);
                    } else {
                        let k = (r - REG_SLOT_BASE) / 0x10;
                        self.slot_len[k] = w2;
                        assert(self@.slot_len =~= m.slot_len.update(k as int, w2));
                    }
                    assert(self@ == rsa_write_spec(m, off as int, src@, None));
                    assert(rsa_write_outcome_ok(m, off as int, src@, None));
                }
            },
        }
    }
}

} // verus!
