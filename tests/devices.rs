use libllama::fs::{get_path, LlamaFile};
use libllama::io::{IoRegion, IoRegsArm9, IoRegsShared};
use libllama::mem::{Backing, MemController};
use libllama::rsa::{
    reg_cnt_complete, rsa_request_operands,
    byte_swap_inner, get_keydata, reg_cnt_update, reg_exp_fifo_write, reg_mod_read, reg_mod_write,
    reg_slot_cnt_update, reg_txt_read, reg_txt_write, word_swap, RsaDevice,
};

fn counting() -> [u8; 256] {
    let mut b = [0u8; 256];
    for (k, x) in b.iter_mut().enumerate() {
        *x = k as u8;
    }
    b
}

#[test]
fn byte_swap_reverses_each_word() {
    let mut b = counting();
    byte_swap_inner(&mut b);
    assert_eq!(&b[0..8], &[3, 2, 1, 0, 7, 6, 5, 4]);
    assert_eq!(&b[252..256], &[255, 254, 253, 252]);
    byte_swap_inner(&mut b);
    assert_eq!(b, counting());
}

#[test]
fn word_swap_reverses_word_order() {
    let mut b = counting();
    word_swap(&mut b);
    assert_eq!(&b[0..4], &[252, 253, 254, 255]);
    assert_eq!(&b[252..256], &[0, 1, 2, 3]);
    assert_eq!(&b[4..8], &[248, 249, 250, 251]);
    word_swap(&mut b);
    assert_eq!(b, counting());
}

#[test]
fn modulus_and_message_buffers_round_trip() {
    let mut dev = RsaDevice::new();
    reg_mod_write(&mut dev, 0x10, &[1, 2, 3]);
    let mut out = vec![0u8; 5];
    reg_mod_read(&dev, 0x0F, &mut out);
    assert_eq!(out, vec![0, 1, 2, 3, 0]);
    reg_txt_write(&mut dev, 0xFE, &[9, 8]);
    let mut out = vec![0u8; 2];
    reg_txt_read(&dev, 0xFE, &mut out);
    assert_eq!(out, vec![9, 8]);
    let mut out = vec![0u8; 1];
    reg_mod_read(&dev, 0xFF, &mut out);
    assert_eq!(out, vec![0]);
}

#[test]
fn keydata_and_slot_reset() {
    let mut dev = RsaDevice::new();
    dev.slot_cnt[2] = 0x3;
    dev.slot_len[2] = 0x100;
    assert_eq!(get_keydata(&dev, 2), (0x3, 0x100));
    dev.internal_state.slots[2].write_pos = 0x40;
    reg_slot_cnt_update(&mut dev, 2);
    assert_eq!(dev.internal_state.slots[2].write_pos, 0x40);
    dev.slot_cnt[2] = 0;
    reg_slot_cnt_update(&mut dev, 2);
    assert_eq!(dev.internal_state.slots[2].write_pos, 0);
}

#[test]
fn exponent_fifo_fills_selected_slot() {
    let mut dev = RsaDevice::new();
    dev.cnt = 1 << 4;
    dev.internal_state.slots[1].buf[100] = 7;
    dev.exp_fifo = 0x4433_2211;
    reg_exp_fifo_write(&mut dev);
    assert_eq!(&dev.internal_state.slots[1].buf[0..4], &[0x11, 0x22, 0x33, 0x44]);
    assert_eq!(dev.internal_state.slots[1].buf[100], 0);
    assert_eq!(dev.internal_state.slots[1].write_pos, 4);
    dev.exp_fifo = 0xDDCC_BBAA;
    reg_exp_fifo_write(&mut dev);
    assert_eq!(&dev.internal_state.slots[1].buf[4..8], &[0xAA, 0xBB, 0xCC, 0xDD]);
    assert_eq!(dev.internal_state.slots[1].write_pos, 8);
    dev.slot_cnt[1] = 1;
    reg_exp_fifo_write(&mut dev);
    assert_eq!(dev.internal_state.slots[1].write_pos, 8);
}

fn rsa_with(modulus: u8, exponent: u8, base: u8, cnt: u32) -> RsaDevice {
    let mut dev = RsaDevice::new();
    dev.internal_state.modulus[255] = modulus;
    dev.internal_state.slots[0].buf[255] = exponent;
    dev.internal_state.message[255] = base;
    dev.slot_cnt[0] = 1;
    dev.cnt = cnt;
    dev
}

#[test]
fn modular_exponentiation_big_endian() {
    // little-endian and normal-order bits set: buffers are used as they are
    let mut dev = rsa_with(13, 5, 2, 0x301);
    reg_cnt_update(&mut dev);
    let mut expected = [0u8; 256];
    expected[255] = 6; // 2^5 mod 13
    assert_eq!(dev.internal_state.message, expected);
    assert_eq!(dev.cnt & 1, 0);
}

#[test]
fn even_modulus_gives_zero() {
    let mut dev = rsa_with(12, 5, 2, 0x301);
    reg_cnt_update(&mut dev);
    assert_eq!(dev.internal_state.message, [0u8; 256]);
    assert_eq!(dev.cnt & 1, 0);
}

#[test]
fn swizzled_operands_and_result() {
    // neither flag set: modulus and message are byte-swapped and
    // word-swapped, so their least significant byte sits at offset 0; the
    // exponent is only byte-swapped, so its sits at offset 252
    let mut dev = RsaDevice::new();
    dev.internal_state.modulus[0] = 13;
    dev.internal_state.slots[0].buf[252] = 5;
    dev.internal_state.message[0] = 2;
    dev.slot_cnt[0] = 1;
    dev.cnt = 1;
    reg_cnt_update(&mut dev);
    let mut expected = [0u8; 256];
    expected[0] = 6;
    assert_eq!(dev.internal_state.message, expected);
}

#[test]
fn control_write_through_register_window() {
    let mut dev = rsa_with(13, 3, 3, 0);
    dev.write_reg(0x000, &[0x01, 0x03, 0x00, 0x00]);
    assert_eq!(dev.internal_state.message[255], 1); // 27 mod 13
    let mut out = vec![0u8; 4];
    dev.read_reg(0x000, &mut out);
    assert_eq!(out, vec![0x00, 0x03, 0x00, 0x00]);
    dev.write_reg(0x404, &[0xAB]);
    let mut out = vec![0u8; 1];
    dev.read_reg(0x404, &mut out);
    assert_eq!(out, vec![0xAB]);
    let mut out = vec![0xFFu8; 2];
    dev.read_reg(0x300, &mut out);
    assert_eq!(out, vec![0, 0]);
}

#[test]
fn io_window_dispatch() {
    let mut mem = MemController::new();
    let d = mem.add_device(IoRegion::Arm9(IoRegsArm9::new()));
    assert!(mem.map_region(0x1000_0000, 0x10_0000, Backing::Io(d)));
    mem.write32(0x1000_0008, 0xCAFE_F00D);
    assert_eq!(mem.read32(0x1000_0008), 0xCAFE_F00D);
    // the RSA page: slot 0 length register
    mem.write32(0x1000_B104, 0x100);
    assert_eq!(mem.read32(0x1000_B104), 0x100);
    // a page no device claims
    mem.write32(0x1000_5000, 0x1234);
    assert_eq!(mem.read32(0x1000_5000), 0);
    assert_eq!(mem.read16(0x1000_000A), 0xCAFE);
    assert_eq!(mem.read8(0x1000_000B), 0xCA);
}

#[test]
fn shared_window_pages() {
    let mut regs = IoRegsShared::new();
    regs.write_reg(0x46004, &[1, 2]);
    let mut out = vec![0u8; 3];
    regs.read_reg(0x46004, &mut out);
    assert_eq!(out, vec![1, 2, 0]);
    assert_eq!(regs.get_bytes(), 0x10_0000);
}

#[test]
fn memory_regions_and_aliasing() {
    let mut mem = MemController::new();
    let s = mem.make_ram(0x100);
    assert!(mem.map_region(0x0, 0x100, Backing::Ram(s)));
    assert!(mem.map_region(0x1000, 0x100, Backing::Ram(s)));
    assert!(!mem.map_region(0x2002, 0x100, Backing::Ram(s)));
    assert!(!mem.map_region(0x3000, 0x200, Backing::Ram(s)));
    assert!(!mem.map_region(0xFFFF_FF00, 0x200, Backing::Ram(0)));
    mem.write32(0x10, 0x0403_0201);
    assert_eq!(mem.read32(0x1010), 0x0403_0201);
    assert_eq!(mem.read8(0x1011), 0x02);
    mem.write16(0x1012, 0xBEEF);
    assert_eq!(mem.read32(0x10), 0xBEEF_0201);
    assert_eq!(mem.read32(0x5000), 0);
    assert_eq!(mem.read_buf(0xFE, 4), vec![0, 0, 0, 0]);
    assert!(!mem.write_buf(0xFE, &[1, 2, 3]));
    assert!(mem.write_buf(0xFD, &[1, 2, 3]));
    assert_eq!(mem.read_buf(0x10FD, 3), vec![1, 2, 3]);
}

#[test]
fn file_names() {
    assert_eq!(get_path(LlamaFile::Boot9), "boot9.bin");
    assert_eq!(get_path(LlamaFile::Boot11), "boot11.bin");
    assert_eq!(get_path(LlamaFile::SdCardImg), "sd.fat");
    assert_eq!(get_path(LlamaFile::NandImg), "nand.bin");
    assert_eq!(get_path(LlamaFile::NandCid), "nand-cid.bin");
    assert_eq!(get_path(LlamaFile::AesKeyDb), "aeskeydb.bin");
    assert_eq!(get_path(LlamaFile::Otp), "otp.bin");
}

#[test]
fn completing_a_request_with_a_given_result() {
    let mut dev = rsa_with(13, 5, 2, 0x301);
    let (b, e, n) = rsa_request_operands(&dev).unwrap();
    assert_eq!((b[255], e[255], n[255]), (2, 5, 13));
    let mut res = [0u8; 256];
    res[255] = 9;
    reg_cnt_complete(&mut dev, Some(res));
    assert_eq!(dev.internal_state.message[255], 9);
    assert_eq!(dev.cnt & 1, 0);
    let mut dev = rsa_with(13, 5, 2, 0x301);
    reg_cnt_complete(&mut dev, None);
    assert_eq!(dev.internal_state.message, [0u8; 256]);
    // no key in the slot: nothing is asked, the message stays
    let mut dev = rsa_with(13, 5, 2, 0x301);
    dev.slot_cnt[0] = 0;
    assert!(rsa_request_operands(&dev).is_none());
    reg_cnt_update(&mut dev);
    assert_eq!(dev.internal_state.message[255], 2);
    assert_eq!(dev.cnt & 1, 0);
    // zero modulus: nothing is asked
    let dev = rsa_with(0, 5, 2, 0x301);
    assert!(rsa_request_operands(&dev).is_none());
}

#[test]
fn fresh_devices_are_idle() {
    let dev = RsaDevice::new();
    assert_eq!((dev.cnt, dev.unk, dev.exp_fifo), (0, 0, 0));
    assert_eq!(dev.slot_len, [0; 4]);
    assert_eq!(dev.internal_state.modulus, [0u8; 256]);
    let (a9, sh, a11, p11) = libllama::io::new_devices();
    assert_eq!(a9.cfg.bytes, vec![0u8; 0x1000]);
    assert_eq!(sh.hid.bytes.len(), 0x1000);
    assert_eq!(a11.get_bytes(), 0x30_0000);
    assert_eq!(p11.get_bytes(), 0x2000);
}
