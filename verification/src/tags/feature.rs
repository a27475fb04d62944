use vstd::prelude::*;

verus! {

/// standard ligatures
pub const LIGA: [u8; 4] = [0x6c, 0x69, 0x67, 0x61]; // "liga"
pub const DFLT: [u8; 4] = [0x64, 0x66, 0x6c, 0x74]; // "dflt"
/// contextual ligatures
pub const CLIG: [u8; 4] = [0x63, 0x6c, 0x69, 0x67]; // "clig"
/// discretionary ligatures
pub const DLIG: [u8; 4] = [0x64, 0x6c, 0x69, 0x67]; // "dlig"
/// tabular numbers
pub const HNUM: [u8; 4] = [0x68, 0x6e, 0x75, 0x6d]; // "hnum"
/// proportional numbers
pub const VNUM: [u8; 4] = [0x76, 0x6e, 0x75, 0x6d]; // "vnum"
/// oldstyle figures
pub const ONUM: [u8; 4] = [0x6f, 0x6e, 0x75, 0x6d]; // "onum"
/// tabular figures
pub const TNUM: [u8; 4] = [0x74, 0x6e, 0x75, 0x6d]; // "tnum"
/// numerator
pub const NUMR: [u8; 4] = [0x6e, 0x75, 0x6d, 0x72]; // "numr"
/// denominator
pub const DNOM: [u8; 4] = [0x64, 0x6e, 0x6f, 0x6d]; // "dnom"
/// swash
pub const SWSH: [u8; 4] = [0x73, 0x77, 0x73, 0x68]; // "swsh"
/// stylistic alternate
pub const SALT: [u8; 4] = [0x73, 0x61, 0x6c, 0x74]; // "salt"
/// stylistic set 1
pub const SS01: [u8; 4] = [0x73, 0x73, 0x30, 0x31]; // "ss01"
pub const SS02: [u8; 4] = [0x73, 0x73, 0x30, 0x32]; // "ss02"
pub const SS03: [u8; 4] = [0x73, 0x73, 0x30, 0x33]; // "ss03"
pub const SS04: [u8; 4] = [0x73, 0x73, 0x30, 0x34]; // "ss04"
pub const SS05: [u8; 4] = [0x73, 0x73, 0x30, 0x35]; // "ss05"
pub const SS06: [u8; 4] = [0x73, 0x73, 0x30, 0x36]; // "ss06"
pub const SS07: [u8; 4] = [0x73, 0x73, 0x30, 0x37]; // "ss07"
pub const SS08: [u8; 4] = [0x73, 0x73, 0x30, 0x38]; // "ss08"
pub const SS09: [u8; 4] = [0x73, 0x73, 0x30, 0x39]; // "ss09"
pub const SS10: [u8; 4] = [0x73, 0x73, 0x31, 0x30]; // "ss10"
/// case-sensitive forms
pub const CASE: [u8; 4] = [0x63, 0x61, 0x73, 0x65]; // "case"
/// small caps from caps
pub const C2SC: [u8; 4] = [0x63, 0x32, 0x73, 0x63]; // "c2sc"
/// small caps
pub const SMCP: [u8; 4] = [0x73, 0x6d, 0x63, 0x70]; // "smcp"
/// petite caps from caps
pub const C2PC: [u8; 4] = [0x63, 0x32, 0x70, 0x63]; // "c2pc"
/// petite caps
pub const PCAP: [u8; 4] = [0x70, 0x63, 0x61, 0x70]; // "pcap"
/// traditional baseline
pub const TBLK: [u8; 4] = [0x74, 0x62, 0x6c, 0x6b]; // "tblk"
/// required alternate
pub const RALT: [u8; 4] = [0x72, 0x61, 0x6c, 0x74]; // "ralt"
/// required contextual alternates
pub const RCLT: [u8; 4] = [0x72, 0x63, 0x6c, 0x74]; // "rclt"
/// abbreviation
pub const ABRV: [u8; 4] = [0x61, 0x62, 0x72, 0x76]; // "abrv"
/// initial forms
pub const INIT: [u8; 4] = [0x69, 0x6e, 0x69, 0x74]; // "init"
/// final forms
pub const FIN: [u8; 4] = [0x66, 0x69, 0x6e, 0x61]; // "fina"
/// medial forms
pub const MED: [u8; 4] = [0x6d, 0x65, 0x64, 0x69]; // "medi"
/// presentation forms
pub const PRES: [u8; 4] = [0x70, 0x72, 0x65, 0x73]; // "pres"
/// required composition
pub const RCOM: [u8; 4] = [0x72, 0x63, 0x6f, 0x6d]; // "rcom"
pub const RPOS: [u8; 4] = [0x72, 0x70, 0x6f, 0x73]; // "rpos"
pub const SWAP: [u8; 4] = [0x73, 0x77, 0x61, 0x70]; // "swap"
pub const SMAR: [u8; 4] = [0x73, 0x6d, 0x61, 0x72]; // "smar"
/// localized forms
pub const LOCL: [u8; 4] = [0x6c, 0x6f, 0x63, 0x6c]; // "locl"
/// historical forms
pub const HIST: [u8; 4] = [0x68, 0x69, 0x73, 0x74]; // "hist"
/// Arabic features group (placeholder)
pub const ARAB: [u8; 4] = [0x61, 0x72, 0x61, 0x62]; // "arab"
/// table name (not a feature tag but sometimes used)
pub const GSUB: [u8; 4] = [0x47, 0x53, 0x55, 0x42]; // "GSUB"

} // verus!
