//! The fixed-name files that the loader reads, and where they live.
use vstd::prelude::*;

verus! {

/// The files the emulator reads from its configuration directory.
#[derive(Clone, Copy, Debug, PartialEq, Eq, Structural)]
pub enum LlamaFile {
    SdCardImg,
    NandImg,
    NandCid,
    AesKeyDb,
    Otp,
    Boot9,
    Boot11,
}

/// The name of each file within the configuration directory.
pub open spec fn file_name(lf: LlamaFile) -> Seq<char> {
    match lf {
        LlamaFile::SdCardImg => "sd.fat"@,
        LlamaFile::NandImg => "nand.bin"@,
        LlamaFile::NandCid => "nand-cid.bin"@,
        LlamaFile::AesKeyDb => "aeskeydb.bin"@,
        LlamaFile::Otp => "otp.bin"@,
        LlamaFile::Boot9 => "boot9.bin"@,
        LlamaFile::Boot11 => "boot11.bin"@,
    }
}

/// The file name of `lf`, relative to the configuration directory.
pub fn get_path(lf: LlamaFile) -> (r: &'static str)
    ensures
        r@ == file_name(lf),
{
    match lf {
        LlamaFile::SdCardImg => "sd.fat",
        LlamaFile::NandImg => "nand.bin",
        LlamaFile::NandCid => "nand-cid.bin",
        LlamaFile::AesKeyDb => "aeskeydb.bin",
        LlamaFile::Otp => "otp.bin",
        LlamaFile::Boot9 => "boot9.bin",
        LlamaFile::Boot11 => "boot11.bin",
    }
}

} // verus!
