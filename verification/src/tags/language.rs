use vstd::prelude::*;

verus! {

pub const DEFAULT: [u8; 4] = [0x64, 0x66, 0x6c, 0x74]; // "dflt"
pub const ENGLISH_US: [u8; 4] = [0x45, 0x4e, 0x47, 0x20]; // "ENG "
/// conservative placeholder (not standard 4-byte)
pub const ENGLISH: [u8; 4] = [0x65, 0x6e, 0x20, 0x20]; // "en  "
pub const FRENCH: [u8; 4] = [0x66, 0x72, 0x20, 0x20]; // "fr  "
pub const GERMAN: [u8; 4] = [0x64, 0x65, 0x20, 0x20]; // "de  "
pub const SPANISH: [u8; 4] = [0x65, 0x73, 0x20, 0x20]; // "es  "
pub const ITALIAN: [u8; 4] = [0x69, 0x74, 0x20, 0x20]; // "it  "
pub const PORTUGUESE: [u8; 4] = [0x70, 0x74, 0x20, 0x20]; // "pt  "
pub const RUSSIAN: [u8; 4] = [0x72, 0x75, 0x20, 0x20]; // "ru  "
pub const CHINESE_SIMPLIFIED: [u8; 4] = [0x7a, 0x68, 0x63, 0x6e]; // "zhcn"
pub const CHINESE_TRADITIONAL: [u8; 4] = [0x7a, 0x68, 0x74, 0x77]; // "zhtw"
pub const JAPANESE: [u8; 4] = [0x6a, 0x61, 0x20, 0x20]; // "ja  "
pub const KOREAN: [u8; 4] = [0x6b, 0x6f, 0x20, 0x20]; // "ko  "
pub const ARABIC: [u8; 4] = [0x61, 0x72, 0x20, 0x20]; // "ar  "
pub const HEBREW: [u8; 4] = [0x68, 0x65, 0x20, 0x20]; // "he  "
pub const HINDI: [u8; 4] = [0x68, 0x69, 0x20, 0x20]; // "hi  "
pub const BENGALI: [u8; 4] = [0x62, 0x6e, 0x20, 0x20]; // "bn  "
pub const TAMIL: [u8; 4] = [0x74, 0x61, 0x20, 0x20]; // "ta  "
pub const TELUGU: [u8; 4] = [0x74, 0x65, 0x20, 0x20]; // "te  "
pub const PUNJABI: [u8; 4] = [0x70, 0x61, 0x20, 0x20]; // "pa  "
pub const VIETNAMESE: [u8; 4] = [0x76, 0x69, 0x20, 0x20]; // "vi  "
pub const THAI: [u8; 4] = [0x74, 0x68, 0x20, 0x20]; // "th  "
pub const LAO: [u8; 4] = [0x6c, 0x6f, 0x20, 0x20]; // "lo  "
pub const MYANMAR: [u8; 4] = [0x6d, 0x79, 0x20, 0x20]; // "my  "
pub const HUNGARIAN: [u8; 4] = [0x68, 0x75, 0x20, 0x20]; // "hu  "
pub const POLISH: [u8; 4] = [0x70, 0x6c, 0x20, 0x20]; // "pl  "
pub const DUTCH: [u8; 4] = [0x6e, 0x6c, 0x20, 0x20]; // "nl  "
pub const SWEDISH: [u8; 4] = [0x73, 0x76, 0x20, 0x20]; // "sv  "
pub const NORWEGIAN: [u8; 4] = [0x6e, 0x6f, 0x20, 0x20]; // "no  "
pub const DANISH: [u8; 4] = [0x64, 0x61, 0x20, 0x20]; // "da  "
pub const FINNISH: [u8; 4] = [0x66, 0x69, 0x20, 0x20]; // "fi  "
pub const CZECH: [u8; 4] = [0x63, 0x73, 0x20, 0x20]; // "cs  "
pub const SLOVAK: [u8; 4] = [0x73, 0x6b, 0x20, 0x20]; // "sk  "
pub const ROMANIAN: [u8; 4] = [0x72, 0x6f, 0x20, 0x20]; // "ro  "
pub const GREEK: [u8; 4] = [0x65, 0x6c, 0x20, 0x20]; // "el  "
pub const TURKISH: [u8; 4] = [0x74, 0x72, 0x20, 0x20]; // "tr  "
pub const UKRAINIAN: [u8; 4] = [0x75, 0x6b, 0x20, 0x20]; // "uk  "

} // verus!
