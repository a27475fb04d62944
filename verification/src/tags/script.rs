use vstd::prelude::*;

verus! {

pub const ADLAM: [u8; 4] = [0x61, 0x64, 0x6c, 0x6d]; // "adlm"
pub const AHOM: [u8; 4] = [0x61, 0x68, 0x6f, 0x6d]; // "ahom"
pub const ANATOLIAN_HIEROGLYPHS: [u8; 4] = [0x68, 0x6c, 0x75, 0x77]; // "hluw"
pub const ARABIC: [u8; 4] = [0x61, 0x72, 0x61, 0x62]; // "arab"
pub const ARMENIAN: [u8; 4] = [0x61, 0x72, 0x6d, 0x6e]; // "armn"
pub const AVESTAN: [u8; 4] = [0x61, 0x76, 0x73, 0x74]; // "avst"
pub const BALINESE: [u8; 4] = [0x62, 0x61, 0x6c, 0x69]; // "bali"
pub const BAMUM: [u8; 4] = [0x62, 0x61, 0x6d, 0x75]; // "bamu"
pub const BASSA_VAH: [u8; 4] = [0x62, 0x61, 0x73, 0x73]; // "bass"
pub const BATAK: [u8; 4] = [0x62, 0x61, 0x74, 0x6b]; // "batk"
pub const BANGLA: [u8; 4] = [0x62, 0x65, 0x6e, 0x67]; // "beng"
pub const BANGLA_V2: [u8; 4] = [0x62, 0x6e, 0x67, 0x32]; // "bng2"
pub const BERIA_ERFE: [u8; 4] = [0x62, 0x65, 0x72, 0x66]; // "berf"
pub const BHAIKSUKI: [u8; 4] = [0x62, 0x68, 0x6b, 0x73]; // "bhks"
pub const BOPOMOFO: [u8; 4] = [0x62, 0x6f, 0x70, 0x6f]; // "bopo"
pub const BRAHMI: [u8; 4] = [0x62, 0x72, 0x61, 0x68]; // "brah"
pub const BRAILLE: [u8; 4] = [0x62, 0x72, 0x61, 0x69]; // "brai"
pub const BUGINESE: [u8; 4] = [0x62, 0x75, 0x67, 0x69]; // "bugi"
pub const BUHID: [u8; 4] = [0x62, 0x75, 0x68, 0x64]; // "buhd"
pub const BYZANTINE_MUSIC: [u8; 4] = [0x62, 0x79, 0x7a, 0x6d]; // "byzm"
pub const CANADIAN_SYLLABICS: [u8; 4] = [0x63, 0x61, 0x6e, 0x73]; // "cans"
pub const CARIAN: [u8; 4] = [0x63, 0x61, 0x72, 0x69]; // "cari"
pub const CAUCASIAN_ALBANIAN: [u8; 4] = [0x61, 0x67, 0x68, 0x62]; // "aghb"
pub const CHAKMA: [u8; 4] = [0x63, 0x61, 0x6b, 0x6d]; // "cakm"
pub const CHAM: [u8; 4] = [0x63, 0x68, 0x61, 0x6d]; // "cham"
pub const CHEROKEE: [u8; 4] = [0x63, 0x68, 0x65, 0x72]; // "cher"
pub const CHORASMIAN: [u8; 4] = [0x63, 0x68, 0x72, 0x73]; // "chrs"
pub const CJK_IDEOGRAPHIC: [u8; 4] = [0x68, 0x61, 0x6e, 0x69]; // "hani"
pub const COPTIC: [u8; 4] = [0x63, 0x6f, 0x70, 0x74]; // "copt"
pub const CYPRIOT_SYLLABARY: [u8; 4] = [0x63, 0x70, 0x72, 0x74]; // "cprt"
pub const CYPRO_MINOAN: [u8; 4] = [0x63, 0x70, 0x6d, 0x6e]; // "cpmn"
pub const CYRILLIC: [u8; 4] = [0x63, 0x79, 0x72, 0x6c]; // "cyrl"
pub const DEFAULT: [u8; 4] = [0x44, 0x46, 0x4c, 0x54]; // "DFLT"
pub const DESERET: [u8; 4] = [0x64, 0x73, 0x72, 0x74]; // "dsrt"
pub const DEVANAGARI: [u8; 4] = [0x64, 0x65, 0x76, 0x61]; // "deva"
pub const DEVANAGARI_V2: [u8; 4] = [0x64, 0x65, 0x76, 0x32]; // "dev2"
pub const DIVES_AKURU: [u8; 4] = [0x64, 0x69, 0x61, 0x6b]; // "diak"
pub const DOGRA: [u8; 4] = [0x64, 0x6f, 0x67, 0x72]; // "dogr"
pub const DUPLOYAN: [u8; 4] = [0x64, 0x75, 0x70, 0x6c]; // "dupl"
pub const EGYPTIAN_HIEROGLYPHS: [u8; 4] = [0x65, 0x67, 0x79, 0x70]; // "egyp"
pub const ELBASAN: [u8; 4] = [0x65, 0x6c, 0x62, 0x61]; // "elba"
pub const ELYMAIC: [u8; 4] = [0x65, 0x6c, 0x79, 0x6d]; // "elym"
pub const ETHIOPIC: [u8; 4] = [0x65, 0x74, 0x68, 0x69]; // "ethi"
pub const GARAY: [u8; 4] = [0x67, 0x61, 0x72, 0x61]; // "gara"
pub const GEORGIAN: [u8; 4] = [0x67, 0x65, 0x6f, 0x72]; // "geor"
pub const GLAGOLITIC: [u8; 4] = [0x67, 0x6c, 0x61, 0x67]; // "glag"
pub const GOTHIC: [u8; 4] = [0x67, 0x6f, 0x74, 0x68]; // "goth"
pub const GRANTHA: [u8; 4] = [0x67, 0x72, 0x61, 0x6e]; // "gran"
pub const GREEK: [u8; 4] = [0x67, 0x72, 0x65, 0x6b]; // "grek"
pub const GUJARATI: [u8; 4] = [0x67, 0x75, 0x6a, 0x72]; // "gujr"
pub const GUJARATI_V2: [u8; 4] = [0x67, 0x6a, 0x72, 0x32]; // "gjr2"
pub const GUNJALA_GONDI: [u8; 4] = [0x67, 0x6f, 0x6e, 0x67]; // "gong"
pub const GURMUKHI: [u8; 4] = [0x67, 0x75, 0x72, 0x75]; // "guru"
pub const GURMUKHI_V2: [u8; 4] = [0x67, 0x75, 0x72, 0x32]; // "gur2"
pub const GURUNG_KHEMA: [u8; 4] = [0x67, 0x75, 0x6b, 0x68]; // "gukh"
pub const HANGUL: [u8; 4] = [0x68, 0x61, 0x6e, 0x67]; // "hang"
pub const HANGUL_JAMO: [u8; 4] = [0x6a, 0x61, 0x6d, 0x6f]; // "jamo"
pub const HANIFI_ROHINGYA: [u8; 4] = [0x72, 0x6f, 0x68, 0x67]; // "rohg"
pub const HANUNOO: [u8; 4] = [0x68, 0x61, 0x6e, 0x6f]; // "hano"
pub const HATRAN: [u8; 4] = [0x68, 0x61, 0x74, 0x72]; // "hatr"
pub const HEBREW: [u8; 4] = [0x68, 0x65, 0x62, 0x72]; // "hebr"
/// Hiragana / Katakana
pub const KANA: [u8; 4] = [0x6b, 0x61, 0x6e, 0x61]; // "kana"
pub const IMPERIAL_ARAMAIC: [u8; 4] = [0x61, 0x72, 0x6d, 0x69]; // "armi"
pub const INSCRIPTIONAL_PAHLAVI: [u8; 4] = [0x70, 0x68, 0x6c, 0x69]; // "phli"
pub const INSCRIPTIONAL_PARTHIAN: [u8; 4] = [0x70, 0x72, 0x74, 0x69]; // "prti"
pub const JAVANESE: [u8; 4] = [0x6a, 0x61, 0x76, 0x61]; // "java"
pub const KAITHI: [u8; 4] = [0x6b, 0x74, 0x68, 0x69]; // "kthi"
pub const KANNADA: [u8; 4] = [0x6b, 0x6e, 0x64, 0x61]; // "knda"
pub const KANNADA_V2: [u8; 4] = [0x6b, 0x6e, 0x64, 0x32]; // "knd2"
pub const KAWI: [u8; 4] = [0x6b, 0x61, 0x77, 0x69]; // "kawi"
pub const KAYAH_LI: [u8; 4] = [0x6b, 0x61, 0x6c, 0x69]; // "kali"
pub const KHAROSTHI: [u8; 4] = [0x6b, 0x68, 0x61, 0x72]; // "khar"
pub const KHITAN_SMALL_SCRIPT: [u8; 4] = [0x6b, 0x69, 0x74, 0x73]; // "kits"
pub const KHMER: [u8; 4] = [0x6b, 0x68, 0x6d, 0x72]; // "khmr"
pub const KHOJKI: [u8; 4] = [0x6b, 0x68, 0x6f, 0x6a]; // "khoj"
pub const KHUDAWADI: [u8; 4] = [0x73, 0x69, 0x6e, 0x64]; // "sind"
pub const KIRAT_RAI: [u8; 4] = [0x6b, 0x72, 0x61, 0x69]; // "krai"
pub const LAO: [u8; 4] = [0x6c, 0x61, 0x6f, 0x20]; // "lao "
pub const LATIN: [u8; 4] = [0x6c, 0x61, 0x74, 0x6e]; // "latn"
pub const LEPCHA: [u8; 4] = [0x6c, 0x65, 0x70, 0x63]; // "lepc"
pub const LIMBU: [u8; 4] = [0x6c, 0x69, 0x6d, 0x62]; // "limb"
pub const LINEAR_A: [u8; 4] = [0x6c, 0x69, 0x6e, 0x61]; // "lina"
pub const LINEAR_B: [u8; 4] = [0x6c, 0x69, 0x6e, 0x62]; // "linb"
pub const LISU: [u8; 4] = [0x6c, 0x69, 0x73, 0x75]; // "lisu"
pub const LYCIAN: [u8; 4] = [0x6c, 0x79, 0x63, 0x69]; // "lyci"
pub const LYDIAN: [u8; 4] = [0x6c, 0x79, 0x64, 0x69]; // "lydi"
pub const MAHAJANI: [u8; 4] = [0x6d, 0x61, 0x68, 0x6a]; // "mahj"
pub const MAKASAR: [u8; 4] = [0x6d, 0x61, 0x6b, 0x61]; // "maka"
pub const MALAYALAM: [u8; 4] = [0x6d, 0x6c, 0x79, 0x6d]; // "mlym"
pub const MALAYALAM_V2: [u8; 4] = [0x6d, 0x6c, 0x6d, 0x32]; // "mlm2"
pub const MANDAIC: [u8; 4] = [0x6d, 0x61, 0x6e, 0x64]; // "mand"
pub const MANICHAEAN: [u8; 4] = [0x6d, 0x61, 0x6e, 0x69]; // "mani"
pub const MARCHEN: [u8; 4] = [0x6d, 0x61, 0x72, 0x63]; // "marc"
pub const MASARAM_GONDI: [u8; 4] = [0x67, 0x6f, 0x6e, 0x6d]; // "gonm"
pub const MATH: [u8; 4] = [0x6d, 0x61, 0x74, 0x68]; // "math"
pub const MEDEFAIDRIN: [u8; 4] = [0x6d, 0x65, 0x64, 0x66]; // "medf"
pub const MEITEI_MAYEK: [u8; 4] = [0x6d, 0x74, 0x65, 0x69]; // "mtei"
pub const MENDE_KIKAKUI: [u8; 4] = [0x6d, 0x65, 0x6e, 0x64]; // "mend"
pub const MEROITIC_CURSIVE: [u8; 4] = [0x6d, 0x65, 0x72, 0x63]; // "merc"
pub const MEROITIC_HIEROGLYPHS: [u8; 4] = [0x6d, 0x65, 0x72, 0x6f]; // "mero"
pub const MIAO: [u8; 4] = [0x70, 0x6c, 0x72, 0x64]; // "plrd"
pub const MODI: [u8; 4] = [0x6d, 0x6f, 0x64, 0x69]; // "modi"
pub const MONGOLIAN: [u8; 4] = [0x6d, 0x6f, 0x6e, 0x67]; // "mong"
pub const MRO: [u8; 4] = [0x6d, 0x72, 0x6f, 0x6f]; // "mroo"
pub const MULTANI: [u8; 4] = [0x6d, 0x75, 0x6c, 0x74]; // "mult"
pub const MUSICAL_SYMBOLS: [u8; 4] = [0x6d, 0x75, 0x73, 0x63]; // "musc"
pub const MYANMAR: [u8; 4] = [0x6d, 0x79, 0x6d, 0x72]; // "mymr"
pub const MYANMAR_V2: [u8; 4] = [0x6d, 0x79, 0x6d, 0x32]; // "mym2"
pub const NABATAEAN: [u8; 4] = [0x6e, 0x62, 0x61, 0x74]; // "nbat"
pub const NAG_MUNDARI: [u8; 4] = [0x6e, 0x61, 0x67, 0x6d]; // "nagm"
pub const NANDINAGARI: [u8; 4] = [0x6e, 0x61, 0x6e, 0x64]; // "nand"
pub const NEWA: [u8; 4] = [0x6e, 0x65, 0x77, 0x61]; // "newa"
pub const NEW_TAI_LUE: [u8; 4] = [0x74, 0x61, 0x6c, 0x75]; // "talu"
pub const NKO: [u8; 4] = [0x6e, 0x6b, 0x6f, 0x20]; // "nko "
pub const NUSHU: [u8; 4] = [0x6e, 0x73, 0x68, 0x75]; // "nshu"
pub const HMNP: [u8; 4] = [0x68, 0x6d, 0x6e, 0x70]; // "hmnp"
pub const ODIA: [u8; 4] = [0x6f, 0x72, 0x79, 0x61]; // "orya"
pub const ODIA_V2: [u8; 4] = [0x6f, 0x72, 0x79, 0x32]; // "ory2"
pub const OGHAM: [u8; 4] = [0x6f, 0x67, 0x61, 0x6d]; // "ogam"
pub const OL_CHIKI: [u8; 4] = [0x6f, 0x6c, 0x63, 0x6b]; // "olck"
pub const OL_ONAL: [u8; 4] = [0x6f, 0x6e, 0x61, 0x6f]; // "onao"
pub const OLD_ITALIC: [u8; 4] = [0x69, 0x74, 0x61, 0x6c]; // "ital"
pub const OLD_HUNGARIAN: [u8; 4] = [0x68, 0x75, 0x6e, 0x67]; // "hung"
pub const OLD_NORTH_ARABIAN: [u8; 4] = [0x6e, 0x61, 0x72, 0x62]; // "narb"
pub const OLD_PERMIC: [u8; 4] = [0x70, 0x65, 0x72, 0x6d]; // "perm"
pub const OLD_PERSIAN: [u8; 4] = [0x78, 0x70, 0x65, 0x6f]; // "xpeo"
pub const OLD_SOGDIAN: [u8; 4] = [0x73, 0x6f, 0x67, 0x6f]; // "sogo"
pub const OLD_SOUTH_ARABIAN: [u8; 4] = [0x73, 0x61, 0x72, 0x62]; // "sarb"
pub const OLD_TURKIC: [u8; 4] = [0x6f, 0x72, 0x6b, 0x68]; // "orkh"
pub const OLD_UYGHUR: [u8; 4] = [0x6f, 0x75, 0x67, 0x72]; // "ougr"
pub const OSAGE: [u8; 4] = [0x6f, 0x73, 0x67, 0x65]; // "osge"
pub const OSMANYA: [u8; 4] = [0x6f, 0x73, 0x6d, 0x61]; // "osma"
pub const PAHAWH_HMONG: [u8; 4] = [0x68, 0x6d, 0x6e, 0x67]; // "hmng"
pub const PALMYRENE: [u8; 4] = [0x70, 0x61, 0x6c, 0x6d]; // "palm"
pub const PAU_CIN_HAU: [u8; 4] = [0x70, 0x61, 0x75, 0x63]; // "pauc"
pub const PHAGS_PA: [u8; 4] = [0x70, 0x68, 0x61, 0x67]; // "phag"
pub const PHOENICIAN: [u8; 4] = [0x70, 0x68, 0x6e, 0x78]; // "phnx"
pub const PSALTER_PAHLAVI: [u8; 4] = [0x70, 0x68, 0x6c, 0x70]; // "phlp"
pub const REJANG: [u8; 4] = [0x72, 0x6a, 0x6e, 0x67]; // "rjng"
pub const RUNIC: [u8; 4] = [0x72, 0x75, 0x6e, 0x72]; // "runr"
pub const SAMARITAN: [u8; 4] = [0x73, 0x61, 0x6d, 0x72]; // "samr"
pub const SAURASHTRA: [u8; 4] = [0x73, 0x61, 0x75, 0x72]; // "saur"
pub const SHARADA: [u8; 4] = [0x73, 0x68, 0x72, 0x64]; // "shrd"
pub const SHAVIAN: [u8; 4] = [0x73, 0x68, 0x61, 0x77]; // "shaw"
pub const SIDDHAM: [u8; 4] = [0x73, 0x69, 0x64, 0x64]; // "sidd"
pub const SIDETIC: [u8; 4] = [0x73, 0x69, 0x64, 0x74]; // "sidt"
pub const SIGNWRITING: [u8; 4] = [0x73, 0x67, 0x6e, 0x77]; // "sgnw"
pub const SINHALA: [u8; 4] = [0x73, 0x69, 0x6e, 0x68]; // "sinh"
pub const SOGDIAN: [u8; 4] = [0x73, 0x6f, 0x67, 0x64]; // "sogd"
pub const SORA_SOMPENG: [u8; 4] = [0x73, 0x6f, 0x72, 0x61]; // "sora"
pub const SOYOMBO: [u8; 4] = [0x73, 0x6f, 0x79, 0x6f]; // "soyo"
pub const SUMERO_AKKADIAN: [u8; 4] = [0x78, 0x73, 0x75, 0x78]; // "xsux"
pub const SUNDANESE: [u8; 4] = [0x73, 0x75, 0x6e, 0x64]; // "sund"
pub const SUNUWAR: [u8; 4] = [0x73, 0x75, 0x6e, 0x75]; // "sunu"
pub const SYLOTI_NAGRI: [u8; 4] = [0x73, 0x79, 0x6c, 0x6f]; // "sylo"
pub const SYRIAC: [u8; 4] = [0x73, 0x79, 0x72, 0x63]; // "syrc"
pub const TAGALOG: [u8; 4] = [0x74, 0x67, 0x6c, 0x67]; // "tglg"
pub const TAGBANWA: [u8; 4] = [0x74, 0x61, 0x67, 0x62]; // "tagb"
pub const TAI_LE: [u8; 4] = [0x74, 0x61, 0x6c, 0x65]; // "tale"
pub const TAI_THAM: [u8; 4] = [0x6c, 0x61, 0x6e, 0x61]; // "lana"
pub const TAI_VIET: [u8; 4] = [0x74, 0x61, 0x76, 0x74]; // "tavt"
pub const TAI_YO: [u8; 4] = [0x74, 0x61, 0x79, 0x6f]; // "tayo"
pub const TAKRI: [u8; 4] = [0x74, 0x61, 0x6b, 0x72]; // "takr"
pub const TAMIL: [u8; 4] = [0x74, 0x61, 0x6d, 0x6c]; // "taml"
pub const TAMIL_V2: [u8; 4] = [0x74, 0x6d, 0x6c, 0x32]; // "tml2"
pub const TANGSA: [u8; 4] = [0x74, 0x6e, 0x73, 0x61]; // "tnsa"
pub const TANGUT: [u8; 4] = [0x74, 0x61, 0x6e, 0x67]; // "tang"
pub const TELUGU: [u8; 4] = [0x74, 0x65, 0x6c, 0x75]; // "telu"
pub const TELUGU_V2: [u8; 4] = [0x74, 0x65, 0x6c, 0x32]; // "tel2"
pub const THAANA: [u8; 4] = [0x74, 0x68, 0x61, 0x61]; // "thaa"
pub const THAI: [u8; 4] = [0x74, 0x68, 0x61, 0x69]; // "thai"
pub const TIBETAN: [u8; 4] = [0x74, 0x69, 0x62, 0x74]; // "tibt"
pub const TIFINAGH: [u8; 4] = [0x74, 0x66, 0x6e, 0x67]; // "tfng"
pub const TIRHUTA: [u8; 4] = [0x74, 0x69, 0x72, 0x68]; // "tirh"
pub const TODHRI: [u8; 4] = [0x74, 0x6f, 0x64, 0x72]; // "todr"
pub const TOLONG_SIKI: [u8; 4] = [0x74, 0x6f, 0x6c, 0x73]; // "tols"
pub const TOTO: [u8; 4] = [0x74, 0x6f, 0x74, 0x6f]; // "toto"
pub const TULU_TIGALARI: [u8; 4] = [0x74, 0x75, 0x74, 0x67]; // "tutg"
pub const UGARITIC: [u8; 4] = [0x75, 0x67, 0x61, 0x72]; // "ugar"
pub const VAI: [u8; 4] = [0x76, 0x61, 0x69, 0x20]; // "vai "
pub const VITHKUQI: [u8; 4] = [0x76, 0x69, 0x74, 0x68]; // "vith"
pub const WANCHO: [u8; 4] = [0x77, 0x63, 0x68, 0x6f]; // "wcho"
pub const WARANG_CITI: [u8; 4] = [0x77, 0x61, 0x72, 0x61]; // "wara"
pub const YEZIDI: [u8; 4] = [0x79, 0x65, 0x7a, 0x69]; // "yezi"
pub const YI: [u8; 4] = [0x79, 0x69, 0x20, 0x20]; // "yi  "
pub const ZANABAZAR_SQUARE: [u8; 4] = [0x7a, 0x61, 0x6e, 0x62]; // "zanb"

} // verus!
