//! The font that draws each writing system: the Noto family (and Droid Sans for East Asian
//! scripts and whatever has no font of its own), chosen from the script that HarfBuzz gives a
//! run of text, or from the symbol set of its characters.
use vstd::prelude::*;
use crate::font::SymbolScript;

verus! {

/// The HarfBuzz tag of the script `Hang`.
pub const HB_SCRIPT_HANGUL: u32 = 0x48616E67;

/// The HarfBuzz tag of the script `Hira`.
pub const HB_SCRIPT_HIRAGANA: u32 = 0x48697261;

/// The HarfBuzz tag of the script `Kana`.
pub const HB_SCRIPT_KATAKANA: u32 = 0x4B616E61;

/// The HarfBuzz tag of the script `Bopo`.
pub const HB_SCRIPT_BOPOMOFO: u32 = 0x426F706F;

/// The HarfBuzz tag of the script `Hani`.
pub const HB_SCRIPT_HAN: u32 = 0x48616E69;

/// The HarfBuzz tag of the script `Arab`.
pub const HB_SCRIPT_ARABIC: u32 = 0x41726162;

/// The HarfBuzz tag of the script `Syrc`.
pub const HB_SCRIPT_SYRIAC: u32 = 0x53797263;

/// The HarfBuzz tag of the script `Merc`.
pub const HB_SCRIPT_MEROITIC_CURSIVE: u32 = 0x4D657263;

/// The HarfBuzz tag of the script `Mero`.
pub const HB_SCRIPT_MEROITIC_HIEROGLYPHS: u32 = 0x4D65726F;

/// The HarfBuzz tag of the script `Adlm`.
pub const HB_SCRIPT_ADLAM: u32 = 0x41646C6D;

/// The HarfBuzz tag of the script `Ahom`.
pub const HB_SCRIPT_AHOM: u32 = 0x41686F6D;

/// The HarfBuzz tag of the script `Hluw`.
pub const HB_SCRIPT_ANATOLIAN_HIEROGLYPHS: u32 = 0x486C7577;

/// The HarfBuzz tag of the script `Armn`.
pub const HB_SCRIPT_ARMENIAN: u32 = 0x41726D6E;

/// The HarfBuzz tag of the script `Avst`.
pub const HB_SCRIPT_AVESTAN: u32 = 0x41767374;

/// The HarfBuzz tag of the script `Bali`.
pub const HB_SCRIPT_BALINESE: u32 = 0x42616C69;

/// The HarfBuzz tag of the script `Bamu`.
pub const HB_SCRIPT_BAMUM: u32 = 0x42616D75;

/// The HarfBuzz tag of the script `Bass`.
pub const HB_SCRIPT_BASSA_VAH: u32 = 0x42617373;

/// The HarfBuzz tag of the script `Batk`.
pub const HB_SCRIPT_BATAK: u32 = 0x4261746B;

/// The HarfBuzz tag of the script `Beng`.
pub const HB_SCRIPT_BENGALI: u32 = 0x42656E67;

/// The HarfBuzz tag of the script `Bhks`.
pub const HB_SCRIPT_BHAIKSUKI: u32 = 0x42686B73;

/// The HarfBuzz tag of the script `Brah`.
pub const HB_SCRIPT_BRAHMI: u32 = 0x42726168;

/// The HarfBuzz tag of the script `Bugi`.
pub const HB_SCRIPT_BUGINESE: u32 = 0x42756769;

/// The HarfBuzz tag of the script `Buhd`.
pub const HB_SCRIPT_BUHID: u32 = 0x42756864;

/// The HarfBuzz tag of the script `Cans`.
pub const HB_SCRIPT_CANADIAN_SYLLABICS: u32 = 0x43616E73;

/// The HarfBuzz tag of the script `Cari`.
pub const HB_SCRIPT_CARIAN: u32 = 0x43617269;

/// The HarfBuzz tag of the script `Aghb`.
pub const HB_SCRIPT_CAUCASIAN_ALBANIAN: u32 = 0x41676862;

/// The HarfBuzz tag of the script `Cakm`.
pub const HB_SCRIPT_CHAKMA: u32 = 0x43616B6D;

/// The HarfBuzz tag of the script `Cham`.
pub const HB_SCRIPT_CHAM: u32 = 0x4368616D;

/// The HarfBuzz tag of the script `Cher`.
pub const HB_SCRIPT_CHEROKEE: u32 = 0x43686572;

/// The HarfBuzz tag of the script `Copt`.
pub const HB_SCRIPT_COPTIC: u32 = 0x436F7074;

/// The HarfBuzz tag of the script `Xsux`.
pub const HB_SCRIPT_CUNEIFORM: u32 = 0x58737578;

/// The HarfBuzz tag of the script `Cprt`.
pub const HB_SCRIPT_CYPRIOT: u32 = 0x43707274;

/// The HarfBuzz tag of the script `Dsrt`.
pub const HB_SCRIPT_DESERET: u32 = 0x44737274;

/// The HarfBuzz tag of the script `Deva`.
pub const HB_SCRIPT_DEVANAGARI: u32 = 0x44657661;

/// The HarfBuzz tag of the script `Dupl`.
pub const HB_SCRIPT_DUPLOYAN: u32 = 0x4475706C;

/// The HarfBuzz tag of the script `Egyp`.
pub const HB_SCRIPT_EGYPTIAN_HIEROGLYPHS: u32 = 0x45677970;

/// The HarfBuzz tag of the script `Elba`.
pub const HB_SCRIPT_ELBASAN: u32 = 0x456C6261;

/// The HarfBuzz tag of the script `Ethi`.
pub const HB_SCRIPT_ETHIOPIC: u32 = 0x45746869;

/// The HarfBuzz tag of the script `Geor`.
pub const HB_SCRIPT_GEORGIAN: u32 = 0x47656F72;

/// The HarfBuzz tag of the script `Glag`.
pub const HB_SCRIPT_GLAGOLITIC: u32 = 0x476C6167;

/// The HarfBuzz tag of the script `Goth`.
pub const HB_SCRIPT_GOTHIC: u32 = 0x476F7468;

/// The HarfBuzz tag of the script `Gran`.
pub const HB_SCRIPT_GRANTHA: u32 = 0x4772616E;

/// The HarfBuzz tag of the script `Gujr`.
pub const HB_SCRIPT_GUJARATI: u32 = 0x47756A72;

/// The HarfBuzz tag of the script `Guru`.
pub const HB_SCRIPT_GURMUKHI: u32 = 0x47757275;

/// The HarfBuzz tag of the script `Hano`.
pub const HB_SCRIPT_HANUNOO: u32 = 0x48616E6F;

/// The HarfBuzz tag of the script `Hatr`.
pub const HB_SCRIPT_HATRAN: u32 = 0x48617472;

/// The HarfBuzz tag of the script `Hebr`.
pub const HB_SCRIPT_HEBREW: u32 = 0x48656272;

/// The HarfBuzz tag of the script `Armi`.
pub const HB_SCRIPT_IMPERIAL_ARAMAIC: u32 = 0x41726D69;

/// The HarfBuzz tag of the script `Phli`.
pub const HB_SCRIPT_INSCRIPTIONAL_PAHLAVI: u32 = 0x50686C69;

/// The HarfBuzz tag of the script `Prti`.
pub const HB_SCRIPT_INSCRIPTIONAL_PARTHIAN: u32 = 0x50727469;

/// The HarfBuzz tag of the script `Java`.
pub const HB_SCRIPT_JAVANESE: u32 = 0x4A617661;

/// The HarfBuzz tag of the script `Kthi`.
pub const HB_SCRIPT_KAITHI: u32 = 0x4B746869;

/// The HarfBuzz tag of the script `Knda`.
pub const HB_SCRIPT_KANNADA: u32 = 0x4B6E6461;

/// The HarfBuzz tag of the script `Kali`.
pub const HB_SCRIPT_KAYAH_LI: u32 = 0x4B616C69;

/// The HarfBuzz tag of the script `Khar`.
pub const HB_SCRIPT_KHAROSHTHI: u32 = 0x4B686172;

/// The HarfBuzz tag of the script `Khmr`.
pub const HB_SCRIPT_KHMER: u32 = 0x4B686D72;

/// The HarfBuzz tag of the script `Khoj`.
pub const HB_SCRIPT_KHOJKI: u32 = 0x4B686F6A;

/// The HarfBuzz tag of the script `Sind`.
pub const HB_SCRIPT_KHUDAWADI: u32 = 0x53696E64;

/// The HarfBuzz tag of the script `Laoo`.
pub const HB_SCRIPT_LAO: u32 = 0x4C616F6F;

/// The HarfBuzz tag of the script `Lepc`.
pub const HB_SCRIPT_LEPCHA: u32 = 0x4C657063;

/// The HarfBuzz tag of the script `Limb`.
pub const HB_SCRIPT_LIMBU: u32 = 0x4C696D62;

/// The HarfBuzz tag of the script `Lina`.
pub const HB_SCRIPT_LINEAR_A: u32 = 0x4C696E61;

/// The HarfBuzz tag of the script `Linb`.
pub const HB_SCRIPT_LINEAR_B: u32 = 0x4C696E62;

/// The HarfBuzz tag of the script `Lisu`.
pub const HB_SCRIPT_LISU: u32 = 0x4C697375;

/// The HarfBuzz tag of the script `Lyci`.
pub const HB_SCRIPT_LYCIAN: u32 = 0x4C796369;

/// The HarfBuzz tag of the script `Lydi`.
pub const HB_SCRIPT_LYDIAN: u32 = 0x4C796469;

/// The HarfBuzz tag of the script `Mahj`.
pub const HB_SCRIPT_MAHAJANI: u32 = 0x4D61686A;

/// The HarfBuzz tag of the script `Mlym`.
pub const HB_SCRIPT_MALAYALAM: u32 = 0x4D6C796D;

/// The HarfBuzz tag of the script `Mand`.
pub const HB_SCRIPT_MANDAIC: u32 = 0x4D616E64;

/// The HarfBuzz tag of the script `Mani`.
pub const HB_SCRIPT_MANICHAEAN: u32 = 0x4D616E69;

/// The HarfBuzz tag of the script `Marc`.
pub const HB_SCRIPT_MARCHEN: u32 = 0x4D617263;

/// The HarfBuzz tag of the script `Mtei`.
pub const HB_SCRIPT_MEETEI_MAYEK: u32 = 0x4D746569;

/// The HarfBuzz tag of the script `Mend`.
pub const HB_SCRIPT_MENDE_KIKAKUI: u32 = 0x4D656E64;

/// The HarfBuzz tag of the script `Plrd`.
pub const HB_SCRIPT_MIAO: u32 = 0x506C7264;

/// The HarfBuzz tag of the script `Modi`.
pub const HB_SCRIPT_MODI: u32 = 0x4D6F6469;

/// The HarfBuzz tag of the script `Mong`.
pub const HB_SCRIPT_MONGOLIAN: u32 = 0x4D6F6E67;

/// The HarfBuzz tag of the script `Mroo`.
pub const HB_SCRIPT_MRO: u32 = 0x4D726F6F;

/// The HarfBuzz tag of the script `Mult`.
pub const HB_SCRIPT_MULTANI: u32 = 0x4D756C74;

/// The HarfBuzz tag of the script `Mymr`.
pub const HB_SCRIPT_MYANMAR: u32 = 0x4D796D72;

/// The HarfBuzz tag of the script `Nbat`.
pub const HB_SCRIPT_NABATAEAN: u32 = 0x4E626174;

/// The HarfBuzz tag of the script `Newa`.
pub const HB_SCRIPT_NEWA: u32 = 0x4E657761;

/// The HarfBuzz tag of the script `Talu`.
pub const HB_SCRIPT_NEW_TAI_LUE: u32 = 0x54616C75;

/// The HarfBuzz tag of the script `Nkoo`.
pub const HB_SCRIPT_NKO: u32 = 0x4E6B6F6F;

/// The HarfBuzz tag of the script `Ogam`.
pub const HB_SCRIPT_OGHAM: u32 = 0x4F67616D;

/// The HarfBuzz tag of the script `Hung`.
pub const HB_SCRIPT_OLD_HUNGARIAN: u32 = 0x48756E67;

/// The HarfBuzz tag of the script `Ital`.
pub const HB_SCRIPT_OLD_ITALIC: u32 = 0x4974616C;

/// The HarfBuzz tag of the script `Narb`.
pub const HB_SCRIPT_OLD_NORTH_ARABIAN: u32 = 0x4E617262;

/// The HarfBuzz tag of the script `Perm`.
pub const HB_SCRIPT_OLD_PERMIC: u32 = 0x5065726D;

/// The HarfBuzz tag of the script `Xpeo`.
pub const HB_SCRIPT_OLD_PERSIAN: u32 = 0x5870656F;

/// The HarfBuzz tag of the script `Sarb`.
pub const HB_SCRIPT_OLD_SOUTH_ARABIAN: u32 = 0x53617262;

/// The HarfBuzz tag of the script `Orkh`.
pub const HB_SCRIPT_OLD_TURKIC: u32 = 0x4F726B68;

/// The HarfBuzz tag of the script `Olck`.
pub const HB_SCRIPT_OL_CHIKI: u32 = 0x4F6C636B;

/// The HarfBuzz tag of the script `Orya`.
pub const HB_SCRIPT_ORIYA: u32 = 0x4F727961;

/// The HarfBuzz tag of the script `Osge`.
pub const HB_SCRIPT_OSAGE: u32 = 0x4F736765;

/// The HarfBuzz tag of the script `Osma`.
pub const HB_SCRIPT_OSMANYA: u32 = 0x4F736D61;

/// The HarfBuzz tag of the script `Hmng`.
pub const HB_SCRIPT_PAHAWH_HMONG: u32 = 0x486D6E67;

/// The HarfBuzz tag of the script `Palm`.
pub const HB_SCRIPT_PALMYRENE: u32 = 0x50616C6D;

/// The HarfBuzz tag of the script `Pauc`.
pub const HB_SCRIPT_PAU_CIN_HAU: u32 = 0x50617563;

/// The HarfBuzz tag of the script `Phag`.
pub const HB_SCRIPT_PHAGS_PA: u32 = 0x50686167;

/// The HarfBuzz tag of the script `Phnx`.
pub const HB_SCRIPT_PHOENICIAN: u32 = 0x50686E78;

/// The HarfBuzz tag of the script `Phlp`.
pub const HB_SCRIPT_PSALTER_PAHLAVI: u32 = 0x50686C70;

/// The HarfBuzz tag of the script `Rjng`.
pub const HB_SCRIPT_REJANG: u32 = 0x526A6E67;

/// The HarfBuzz tag of the script `Runr`.
pub const HB_SCRIPT_RUNIC: u32 = 0x52756E72;

/// The HarfBuzz tag of the script `Samr`.
pub const HB_SCRIPT_SAMARITAN: u32 = 0x53616D72;

/// The HarfBuzz tag of the script `Saur`.
pub const HB_SCRIPT_SAURASHTRA: u32 = 0x53617572;

/// The HarfBuzz tag of the script `Shrd`.
pub const HB_SCRIPT_SHARADA: u32 = 0x53687264;

/// The HarfBuzz tag of the script `Shaw`.
pub const HB_SCRIPT_SHAVIAN: u32 = 0x53686177;

/// The HarfBuzz tag of the script `Sidd`.
pub const HB_SCRIPT_SIDDHAM: u32 = 0x53696464;

/// The HarfBuzz tag of the script `Sinh`.
pub const HB_SCRIPT_SINHALA: u32 = 0x53696E68;

/// The HarfBuzz tag of the script `Sora`.
pub const HB_SCRIPT_SORA_SOMPENG: u32 = 0x536F7261;

/// The HarfBuzz tag of the script `Sund`.
pub const HB_SCRIPT_SUNDANESE: u32 = 0x53756E64;

/// The HarfBuzz tag of the script `Sylo`.
pub const HB_SCRIPT_SYLOTI_NAGRI: u32 = 0x53796C6F;

/// The HarfBuzz tag of the script `Tglg`.
pub const HB_SCRIPT_TAGALOG: u32 = 0x54676C67;

/// The HarfBuzz tag of the script `Tagb`.
pub const HB_SCRIPT_TAGBANWA: u32 = 0x54616762;

/// The HarfBuzz tag of the script `Tale`.
pub const HB_SCRIPT_TAI_LE: u32 = 0x54616C65;

/// The HarfBuzz tag of the script `Lana`.
pub const HB_SCRIPT_TAI_THAM: u32 = 0x4C616E61;

/// The HarfBuzz tag of the script `Tavt`.
pub const HB_SCRIPT_TAI_VIET: u32 = 0x54617674;

/// The HarfBuzz tag of the script `Takr`.
pub const HB_SCRIPT_TAKRI: u32 = 0x54616B72;

/// The HarfBuzz tag of the script `Taml`.
pub const HB_SCRIPT_TAMIL: u32 = 0x54616D6C;

/// The HarfBuzz tag of the script `Telu`.
pub const HB_SCRIPT_TELUGU: u32 = 0x54656C75;

/// The HarfBuzz tag of the script `Thaa`.
pub const HB_SCRIPT_THAANA: u32 = 0x54686161;

/// The HarfBuzz tag of the script `Thai`.
pub const HB_SCRIPT_THAI: u32 = 0x54686169;

/// The HarfBuzz tag of the script `Tibt`.
pub const HB_SCRIPT_TIBETAN: u32 = 0x54696274;

/// The HarfBuzz tag of the script `Tfng`.
pub const HB_SCRIPT_TIFINAGH: u32 = 0x54666E67;

/// The HarfBuzz tag of the script `Tirh`.
pub const HB_SCRIPT_TIRHUTA: u32 = 0x54697268;

/// The HarfBuzz tag of the script `Ugar`.
pub const HB_SCRIPT_UGARITIC: u32 = 0x55676172;

/// The HarfBuzz tag of the script `Vaii`.
pub const HB_SCRIPT_VAI: u32 = 0x56616969;

/// The HarfBuzz tag of the script `Wara`.
pub const HB_SCRIPT_WARANG_CITI: u32 = 0x57617261;

/// The HarfBuzz tag of the script `Yiii`.
pub const HB_SCRIPT_YI: u32 = 0x59696969;

/// The HarfBuzz tag of the script `Brai`.
pub const HB_SCRIPT_BRAILLE: u32 = 0x42726169;

/// The fonts that come with the reader, by file.
#[derive(Debug, Copy, Clone, PartialEq, Eq, Structural)]
pub enum ScriptFont {
    DroidSansFallback,
    NotoNaskhArabic,
    NotoSansSyriac,
    NotoSansMeroitic,
    NotoSansAdlam,
    NotoSerifAhom,
    NotoSansAnatolianHieroglyphs,
    NotoSerifArmenian,
    NotoSansAvestan,
    NotoSerifBalinese,
    NotoSansBamum,
    NotoSansBassaVah,
    NotoSansBatak,
    NotoSerifBengali,
    NotoSansBhaiksuki,
    NotoSansBrahmi,
    NotoSansBuginese,
    NotoSansBuhid,
    NotoSansCanadianAboriginal,
    NotoSansCarian,
    NotoSansCaucasianAlbanian,
    NotoSansChakma,
    NotoSansCham,
    NotoSansCherokee,
    NotoSansCoptic,
    NotoSansCuneiform,
    NotoSansCypriot,
    NotoSansDeseret,
    NotoSerifDevanagari,
    NotoSansDuployan,
    NotoSansEgyptianHieroglyphs,
    NotoSansElbasan,
    NotoSerifEthiopic,
    NotoSerifGeorgian,
    NotoSansGlagolitic,
    NotoSansGothic,
    NotoSansGrantha,
    NotoSerifGujarati,
    NotoSerifGurmukhi,
    NotoSansHanunoo,
    NotoSansHatran,
    NotoSerifHebrew,
    NotoSansImperialAramaic,
    NotoSansInscriptionalPahlavi,
    NotoSansInscriptionalParthian,
    NotoSansJavanese,
    NotoSansKaithi,
    NotoSerifKannada,
    NotoSansKayahLi,
    NotoSansKharoshthi,
    NotoSerifKhmer,
    NotoSansKhojki,
    NotoSansKhudawadi,
    NotoSerifLao,
    NotoSansLepcha,
    NotoSansLimbu,
    NotoSansLinearA,
    NotoSansLinearB,
    NotoSansLisu,
    NotoSansLycian,
    NotoSansLydian,
    NotoSansMahajani,
    NotoSerifMalayalam,
    NotoSansMandaic,
    NotoSansManichaean,
    NotoSansMarchen,
    NotoSansMeeteiMayek,
    NotoSansMendeKikakui,
    NotoSansMiao,
    NotoSansModi,
    NotoSansMongolian,
    NotoSansMro,
    NotoSansMultani,
    NotoSerifMyanmar,
    NotoSansNabataean,
    NotoSansNewa,
    NotoSansNewTaiLue,
    NotoSansNKo,
    NotoSansOgham,
    NotoSansOldHungarian,
    NotoSansOldItalic,
    NotoSansOldNorthArabian,
    NotoSansOldPermic,
    NotoSansOldPersian,
    NotoSansOldSouthArabian,
    NotoSansOldTurkic,
    NotoSansOlChiki,
    NotoSansOriya,
    NotoSansOsage,
    NotoSansOsmanya,
    NotoSansPahawhHmong,
    NotoSansPalmyrene,
    NotoSansPauCinHau,
    NotoSansPhagsPa,
    NotoSansPhoenician,
    NotoSansPsalterPahlavi,
    NotoSansRejang,
    NotoSansRunic,
    NotoSansSamaritan,
    NotoSansSaurashtra,
    NotoSansSharada,
    NotoSansShavian,
    NotoSansSiddham,
    NotoSerifSinhala,
    NotoSansSoraSompeng,
    NotoSansSundanese,
    NotoSansSylotiNagri,
    NotoSansTagalog,
    NotoSansTagbanwa,
    NotoSansTaiLe,
    NotoSansTaiTham,
    NotoSansTaiViet,
    NotoSansTakri,
    NotoSerifTamil,
    NotoSerifTelugu,
    NotoSansThaana,
    NotoSerifThai,
    NotoSerifTibetan,
    NotoSansTifinagh,
    NotoSansTirhuta,
    NotoSansUgaritic,
    NotoSansVai,
    NotoSansWarangCiti,
    NotoSansYi,
    NotoSansMath,
    NotoMusic,
    NotoSansSymbols,
    NotoSansSymbols2,
    NotoEmoji,
}

/// The font of a script: the one the script names, Droid Sans where there is none.
pub open spec fn script_font(script: u32) -> ScriptFont {
    if script == HB_SCRIPT_HANGUL || script == HB_SCRIPT_HIRAGANA || script == HB_SCRIPT_KATAKANA || script == HB_SCRIPT_BOPOMOFO || script == HB_SCRIPT_HAN {
        ScriptFont::DroidSansFallback
    } else if script == HB_SCRIPT_ARABIC {
        ScriptFont::NotoNaskhArabic
    } else if script == HB_SCRIPT_SYRIAC {
        ScriptFont::NotoSansSyriac
    } else if script == HB_SCRIPT_MEROITIC_CURSIVE || script == HB_SCRIPT_MEROITIC_HIEROGLYPHS {
        ScriptFont::NotoSansMeroitic
    } else if script == HB_SCRIPT_ADLAM {
        ScriptFont::NotoSansAdlam
    } else if script == HB_SCRIPT_AHOM {
        ScriptFont::NotoSerifAhom
    } else if script == HB_SCRIPT_ANATOLIAN_HIEROGLYPHS {
        ScriptFont::NotoSansAnatolianHieroglyphs
    } else if script == HB_SCRIPT_ARMENIAN {
        ScriptFont::NotoSerifArmenian
    } else if script == HB_SCRIPT_AVESTAN {
        ScriptFont::NotoSansAvestan
    } else if script == HB_SCRIPT_BALINESE {
        ScriptFont::NotoSerifBalinese
    } else if script == HB_SCRIPT_BAMUM {
        ScriptFont::NotoSansBamum
    } else if script == HB_SCRIPT_BASSA_VAH {
        ScriptFont::NotoSansBassaVah
    } else if script == HB_SCRIPT_BATAK {
        ScriptFont::NotoSansBatak
    } else if script == HB_SCRIPT_BENGALI {
        ScriptFont::NotoSerifBengali
    } else if script == HB_SCRIPT_BHAIKSUKI {
        ScriptFont::NotoSansBhaiksuki
    } else if script == HB_SCRIPT_BRAHMI {
        ScriptFont::NotoSansBrahmi
    } else if script == HB_SCRIPT_BUGINESE {
        ScriptFont::NotoSansBuginese
    } else if script == HB_SCRIPT_BUHID {
        ScriptFont::NotoSansBuhid
    } else if script == HB_SCRIPT_CANADIAN_SYLLABICS {
        ScriptFont::NotoSansCanadianAboriginal
    } else if script == HB_SCRIPT_CARIAN {
        ScriptFont::NotoSansCarian
    } else if script == HB_SCRIPT_CAUCASIAN_ALBANIAN {
        ScriptFont::NotoSansCaucasianAlbanian
    } else if script == HB_SCRIPT_CHAKMA {
        ScriptFont::NotoSansChakma
    } else if script == HB_SCRIPT_CHAM {
        ScriptFont::NotoSansCham
    } else if script == HB_SCRIPT_CHEROKEE {
        ScriptFont::NotoSansCherokee
    } else if script == HB_SCRIPT_COPTIC {
        ScriptFont::NotoSansCoptic
    } else if script == HB_SCRIPT_CUNEIFORM {
        ScriptFont::NotoSansCuneiform
    } else if script == HB_SCRIPT_CYPRIOT {
        ScriptFont::NotoSansCypriot
    } else if script == HB_SCRIPT_DESERET {
        ScriptFont::NotoSansDeseret
    } else if script == HB_SCRIPT_DEVANAGARI {
        ScriptFont::NotoSerifDevanagari
    } else if script == HB_SCRIPT_DUPLOYAN {
        ScriptFont::NotoSansDuployan
    } else if script == HB_SCRIPT_EGYPTIAN_HIEROGLYPHS {
        ScriptFont::NotoSansEgyptianHieroglyphs
    } else if script == HB_SCRIPT_ELBASAN {
        ScriptFont::NotoSansElbasan
    } else if script == HB_SCRIPT_ETHIOPIC {
        ScriptFont::NotoSerifEthiopic
    } else if script == HB_SCRIPT_GEORGIAN {
        ScriptFont::NotoSerifGeorgian
    } else if script == HB_SCRIPT_GLAGOLITIC {
        ScriptFont::NotoSansGlagolitic
    } else if script == HB_SCRIPT_GOTHIC {
        ScriptFont::NotoSansGothic
    } else if script == HB_SCRIPT_GRANTHA {
        ScriptFont::NotoSansGrantha
    } else if script == HB_SCRIPT_GUJARATI {
        ScriptFont::NotoSerifGujarati
    } else if script == HB_SCRIPT_GURMUKHI {
        ScriptFont::NotoSerifGurmukhi
    } else if script == HB_SCRIPT_HANUNOO {
        ScriptFont::NotoSansHanunoo
    } else if script == HB_SCRIPT_HATRAN {
        ScriptFont::NotoSansHatran
    } else if script == HB_SCRIPT_HEBREW {
        ScriptFont::NotoSerifHebrew
    } else if script == HB_SCRIPT_IMPERIAL_ARAMAIC {
        ScriptFont::NotoSansImperialAramaic
    } else if script == HB_SCRIPT_INSCRIPTIONAL_PAHLAVI {
        ScriptFont::NotoSansInscriptionalPahlavi
    } else if script == HB_SCRIPT_INSCRIPTIONAL_PARTHIAN {
        ScriptFont::NotoSansInscriptionalParthian
    } else if script == HB_SCRIPT_JAVANESE {
        ScriptFont::NotoSansJavanese
    } else if script == HB_SCRIPT_KAITHI {
        ScriptFont::NotoSansKaithi
    } else if script == HB_SCRIPT_KANNADA {
        ScriptFont::NotoSerifKannada
    } else if script == HB_SCRIPT_KAYAH_LI {
        ScriptFont::NotoSansKayahLi
    } else if script == HB_SCRIPT_KHAROSHTHI {
        ScriptFont::NotoSansKharoshthi
    } else if script == HB_SCRIPT_KHMER {
        ScriptFont::NotoSerifKhmer
    } else if script == HB_SCRIPT_KHOJKI {
        ScriptFont::NotoSansKhojki
    } else if script == HB_SCRIPT_KHUDAWADI {
        ScriptFont::NotoSansKhudawadi
    } else if script == HB_SCRIPT_LAO {
        ScriptFont::NotoSerifLao
    } else if script == HB_SCRIPT_LEPCHA {
        ScriptFont::NotoSansLepcha
    } else if script == HB_SCRIPT_LIMBU {
        ScriptFont::NotoSansLimbu
    } else if script == HB_SCRIPT_LINEAR_A {
        ScriptFont::NotoSansLinearA
    } else if script == HB_SCRIPT_LINEAR_B {
        ScriptFont::NotoSansLinearB
    } else if script == HB_SCRIPT_LISU {
        ScriptFont::NotoSansLisu
    } else if script == HB_SCRIPT_LYCIAN {
        ScriptFont::NotoSansLycian
    } else if script == HB_SCRIPT_LYDIAN {
        ScriptFont::NotoSansLydian
    } else if script == HB_SCRIPT_MAHAJANI {
        ScriptFont::NotoSansMahajani
    } else if script == HB_SCRIPT_MALAYALAM {
        ScriptFont::NotoSerifMalayalam
    } else if script == HB_SCRIPT_MANDAIC {
        ScriptFont::NotoSansMandaic
    } else if script == HB_SCRIPT_MANICHAEAN {
        ScriptFont::NotoSansManichaean
    } else if script == HB_SCRIPT_MARCHEN {
        ScriptFont::NotoSansMarchen
    } else if script == HB_SCRIPT_MEETEI_MAYEK {
        ScriptFont::NotoSansMeeteiMayek
    } else if script == HB_SCRIPT_MENDE_KIKAKUI {
        ScriptFont::NotoSansMendeKikakui
    } else if script == HB_SCRIPT_MIAO {
        ScriptFont::NotoSansMiao
    } else if script == HB_SCRIPT_MODI {
        ScriptFont::NotoSansModi
    } else if script == HB_SCRIPT_MONGOLIAN {
        ScriptFont::NotoSansMongolian
    } else if script == HB_SCRIPT_MRO {
        ScriptFont::NotoSansMro
    } else if script == HB_SCRIPT_MULTANI {
        ScriptFont::NotoSansMultani
    } else if script == HB_SCRIPT_MYANMAR {
        ScriptFont::NotoSerifMyanmar
    } else if script == HB_SCRIPT_NABATAEAN {
        ScriptFont::NotoSansNabataean
    } else if script == HB_SCRIPT_NEWA {
        ScriptFont::NotoSansNewa
    } else if script == HB_SCRIPT_NEW_TAI_LUE {
        ScriptFont::NotoSansNewTaiLue
    } else if script == HB_SCRIPT_NKO {
        ScriptFont::NotoSansNKo
    } else if script == HB_SCRIPT_OGHAM {
        ScriptFont::NotoSansOgham
    } else if script == HB_SCRIPT_OLD_HUNGARIAN {
        ScriptFont::NotoSansOldHungarian
    } else if script == HB_SCRIPT_OLD_ITALIC {
        ScriptFont::NotoSansOldItalic
    } else if script == HB_SCRIPT_OLD_NORTH_ARABIAN {
        ScriptFont::NotoSansOldNorthArabian
    } else if script == HB_SCRIPT_OLD_PERMIC {
        ScriptFont::NotoSansOldPermic
    } else if script == HB_SCRIPT_OLD_PERSIAN {
        ScriptFont::NotoSansOldPersian
    } else if script == HB_SCRIPT_OLD_SOUTH_ARABIAN {
        ScriptFont::NotoSansOldSouthArabian
    } else if script == HB_SCRIPT_OLD_TURKIC {
        ScriptFont::NotoSansOldTurkic
    } else if script == HB_SCRIPT_OL_CHIKI {
        ScriptFont::NotoSansOlChiki
    } else if script == HB_SCRIPT_ORIYA {
        ScriptFont::NotoSansOriya
    } else if script == HB_SCRIPT_OSAGE {
        ScriptFont::NotoSansOsage
    } else if script == HB_SCRIPT_OSMANYA {
        ScriptFont::NotoSansOsmanya
    } else if script == HB_SCRIPT_PAHAWH_HMONG {
        ScriptFont::NotoSansPahawhHmong
    } else if script == HB_SCRIPT_PALMYRENE {
        ScriptFont::NotoSansPalmyrene
    } else if script == HB_SCRIPT_PAU_CIN_HAU {
        ScriptFont::NotoSansPauCinHau
    } else if script == HB_SCRIPT_PHAGS_PA {
        ScriptFont::NotoSansPhagsPa
    } else if script == HB_SCRIPT_PHOENICIAN {
        ScriptFont::NotoSansPhoenician
    } else if script == HB_SCRIPT_PSALTER_PAHLAVI {
        ScriptFont::NotoSansPsalterPahlavi
    } else if script == HB_SCRIPT_REJANG {
        ScriptFont::NotoSansRejang
    } else if script == HB_SCRIPT_RUNIC {
        ScriptFont::NotoSansRunic
    } else if script == HB_SCRIPT_SAMARITAN {
        ScriptFont::NotoSansSamaritan
    } else if script == HB_SCRIPT_SAURASHTRA {
        ScriptFont::NotoSansSaurashtra
    } else if script == HB_SCRIPT_SHARADA {
        ScriptFont::NotoSansSharada
    } else if script == HB_SCRIPT_SHAVIAN {
        ScriptFont::NotoSansShavian
    } else if script == HB_SCRIPT_SIDDHAM {
        ScriptFont::NotoSansSiddham
    } else if script == HB_SCRIPT_SINHALA {
        ScriptFont::NotoSerifSinhala
    } else if script == HB_SCRIPT_SORA_SOMPENG {
        ScriptFont::NotoSansSoraSompeng
    } else if script == HB_SCRIPT_SUNDANESE {
        ScriptFont::NotoSansSundanese
    } else if script == HB_SCRIPT_SYLOTI_NAGRI {
        ScriptFont::NotoSansSylotiNagri
    } else if script == HB_SCRIPT_TAGALOG {
        ScriptFont::NotoSansTagalog
    } else if script == HB_SCRIPT_TAGBANWA {
        ScriptFont::NotoSansTagbanwa
    } else if script == HB_SCRIPT_TAI_LE {
        ScriptFont::NotoSansTaiLe
    } else if script == HB_SCRIPT_TAI_THAM {
        ScriptFont::NotoSansTaiTham
    } else if script == HB_SCRIPT_TAI_VIET {
        ScriptFont::NotoSansTaiViet
    } else if script == HB_SCRIPT_TAKRI {
        ScriptFont::NotoSansTakri
    } else if script == HB_SCRIPT_TAMIL {
        ScriptFont::NotoSerifTamil
    } else if script == HB_SCRIPT_TELUGU {
        ScriptFont::NotoSerifTelugu
    } else if script == HB_SCRIPT_THAANA {
        ScriptFont::NotoSansThaana
    } else if script == HB_SCRIPT_THAI {
        ScriptFont::NotoSerifThai
    } else if script == HB_SCRIPT_TIBETAN {
        ScriptFont::NotoSerifTibetan
    } else if script == HB_SCRIPT_TIFINAGH {
        ScriptFont::NotoSansTifinagh
    } else if script == HB_SCRIPT_TIRHUTA {
        ScriptFont::NotoSansTirhuta
    } else if script == HB_SCRIPT_UGARITIC {
        ScriptFont::NotoSansUgaritic
    } else if script == HB_SCRIPT_VAI {
        ScriptFont::NotoSansVai
    } else if script == HB_SCRIPT_WARANG_CITI {
        ScriptFont::NotoSansWarangCiti
    } else if script == HB_SCRIPT_YI {
        ScriptFont::NotoSansYi
    } else if script == HB_SCRIPT_BRAILLE {
        ScriptFont::NotoSansSymbols2
    } else {
        ScriptFont::DroidSansFallback
    }
}

/// The font that draws a run of text in `script`.
pub fn font_for_script(script: u32) -> (f: ScriptFont)
    ensures
        f == script_font(script),
{
    if script == HB_SCRIPT_HANGUL || script == HB_SCRIPT_HIRAGANA || script == HB_SCRIPT_KATAKANA || script == HB_SCRIPT_BOPOMOFO || script == HB_SCRIPT_HAN {
        ScriptFont::DroidSansFallback
    } else if script == HB_SCRIPT_ARABIC {
        ScriptFont::NotoNaskhArabic
    } else if script == HB_SCRIPT_SYRIAC {
        ScriptFont::NotoSansSyriac
    } else if script == HB_SCRIPT_MEROITIC_CURSIVE || script == HB_SCRIPT_MEROITIC_HIEROGLYPHS {
        ScriptFont::NotoSansMeroitic
    } else if script == HB_SCRIPT_ADLAM {
        ScriptFont::NotoSansAdlam
    } else if script == HB_SCRIPT_AHOM {
        ScriptFont::NotoSerifAhom
    } else if script == HB_SCRIPT_ANATOLIAN_HIEROGLYPHS {
        ScriptFont::NotoSansAnatolianHieroglyphs
    } else if script == HB_SCRIPT_ARMENIAN {
        ScriptFont::NotoSerifArmenian
    } else if script == HB_SCRIPT_AVESTAN {
        ScriptFont::NotoSansAvestan
    } else if script == HB_SCRIPT_BALINESE {
        ScriptFont::NotoSerifBalinese
    } else if script == HB_SCRIPT_BAMUM {
        ScriptFont::NotoSansBamum
    } else if script == HB_SCRIPT_BASSA_VAH {
        ScriptFont::NotoSansBassaVah
    } else if script == HB_SCRIPT_BATAK {
        ScriptFont::NotoSansBatak
    } else if script == HB_SCRIPT_BENGALI {
        ScriptFont::NotoSerifBengali
    } else if script == HB_SCRIPT_BHAIKSUKI {
        ScriptFont::NotoSansBhaiksuki
    } else if script == HB_SCRIPT_BRAHMI {
        ScriptFont::NotoSansBrahmi
    } else if script == HB_SCRIPT_BUGINESE {
        ScriptFont::NotoSansBuginese
    } else if script == HB_SCRIPT_BUHID {
        ScriptFont::NotoSansBuhid
    } else if script == HB_SCRIPT_CANADIAN_SYLLABICS {
        ScriptFont::NotoSansCanadianAboriginal
    } else if script == HB_SCRIPT_CARIAN {
        ScriptFont::NotoSansCarian
    } else if script == HB_SCRIPT_CAUCASIAN_ALBANIAN {
        ScriptFont::NotoSansCaucasianAlbanian
    } else if script == HB_SCRIPT_CHAKMA {
        ScriptFont::NotoSansChakma
    } else if script == HB_SCRIPT_CHAM {
        ScriptFont::NotoSansCham
    } else if script == HB_SCRIPT_CHEROKEE {
        ScriptFont::NotoSansCherokee
    } else if script == HB_SCRIPT_COPTIC {
        ScriptFont::NotoSansCoptic
    } else if script == HB_SCRIPT_CUNEIFORM {
        ScriptFont::NotoSansCuneiform
    } else if script == HB_SCRIPT_CYPRIOT {
        ScriptFont::NotoSansCypriot
    } else if script == HB_SCRIPT_DESERET {
        ScriptFont::NotoSansDeseret
    } else if script == HB_SCRIPT_DEVANAGARI {
        ScriptFont::NotoSerifDevanagari
    } else if script == HB_SCRIPT_DUPLOYAN {
        ScriptFont::NotoSansDuployan
    } else if script == HB_SCRIPT_EGYPTIAN_HIEROGLYPHS {
        ScriptFont::NotoSansEgyptianHieroglyphs
    } else if script == HB_SCRIPT_ELBASAN {
        ScriptFont::NotoSansElbasan
    } else if script == HB_SCRIPT_ETHIOPIC {
        ScriptFont::NotoSerifEthiopic
    } else if script == HB_SCRIPT_GEORGIAN {
        ScriptFont::NotoSerifGeorgian
    } else if script == HB_SCRIPT_GLAGOLITIC {
        ScriptFont::NotoSansGlagolitic
    } else if script == HB_SCRIPT_GOTHIC {
        ScriptFont::NotoSansGothic
    } else if script == HB_SCRIPT_GRANTHA {
        ScriptFont::NotoSansGrantha
    } else if script == HB_SCRIPT_GUJARATI {
        ScriptFont::NotoSerifGujarati
    } else if script == HB_SCRIPT_GURMUKHI {
        ScriptFont::NotoSerifGurmukhi
    } else if script == HB_SCRIPT_HANUNOO {
        ScriptFont::NotoSansHanunoo
    } else if script == HB_SCRIPT_HATRAN {
        ScriptFont::NotoSansHatran
    } else if script == HB_SCRIPT_HEBREW {
        ScriptFont::NotoSerifHebrew
    } else if script == HB_SCRIPT_IMPERIAL_ARAMAIC {
        ScriptFont::NotoSansImperialAramaic
    } else if script == HB_SCRIPT_INSCRIPTIONAL_PAHLAVI {
        ScriptFont::NotoSansInscriptionalPahlavi
    } else if script == HB_SCRIPT_INSCRIPTIONAL_PARTHIAN {
        ScriptFont::NotoSansInscriptionalParthian
    } else if script == HB_SCRIPT_JAVANESE {
        ScriptFont::NotoSansJavanese
    } else if script == HB_SCRIPT_KAITHI {
        ScriptFont::NotoSansKaithi
    } else if script == HB_SCRIPT_KANNADA {
        ScriptFont::NotoSerifKannada
    } else if script == HB_SCRIPT_KAYAH_LI {
        ScriptFont::NotoSansKayahLi
    } else if script == HB_SCRIPT_KHAROSHTHI {
        ScriptFont::NotoSansKharoshthi
    } else if script == HB_SCRIPT_KHMER {
        ScriptFont::NotoSerifKhmer
    } else if script == HB_SCRIPT_KHOJKI {
        ScriptFont::NotoSansKhojki
    } else if script == HB_SCRIPT_KHUDAWADI {
        ScriptFont::NotoSansKhudawadi
    } else if script == HB_SCRIPT_LAO {
        ScriptFont::NotoSerifLao
    } else if script == HB_SCRIPT_LEPCHA {
        ScriptFont::NotoSansLepcha
    } else if script == HB_SCRIPT_LIMBU {
        ScriptFont::NotoSansLimbu
    } else if script == HB_SCRIPT_LINEAR_A {
        ScriptFont::NotoSansLinearA
    } else if script == HB_SCRIPT_LINEAR_B {
        ScriptFont::NotoSansLinearB
    } else if script == HB_SCRIPT_LISU {
        ScriptFont::NotoSansLisu
    } else if script == HB_SCRIPT_LYCIAN {
        ScriptFont::NotoSansLycian
    } else if script == HB_SCRIPT_LYDIAN {
        ScriptFont::NotoSansLydian
    } else if script == HB_SCRIPT_MAHAJANI {
        ScriptFont::NotoSansMahajani
    } else if script == HB_SCRIPT_MALAYALAM {
        ScriptFont::NotoSerifMalayalam
    } else if script == HB_SCRIPT_MANDAIC {
        ScriptFont::NotoSansMandaic
    } else if script == HB_SCRIPT_MANICHAEAN {
        ScriptFont::NotoSansManichaean
    } else if script == HB_SCRIPT_MARCHEN {
        ScriptFont::NotoSansMarchen
    } else if script == HB_SCRIPT_MEETEI_MAYEK {
        ScriptFont::NotoSansMeeteiMayek
    } else if script == HB_SCRIPT_MENDE_KIKAKUI {
        ScriptFont::NotoSansMendeKikakui
    } else if script == HB_SCRIPT_MIAO {
        ScriptFont::NotoSansMiao
    } else if script == HB_SCRIPT_MODI {
        ScriptFont::NotoSansModi
    } else if script == HB_SCRIPT_MONGOLIAN {
        ScriptFont::NotoSansMongolian
    } else if script == HB_SCRIPT_MRO {
        ScriptFont::NotoSansMro
    } else if script == HB_SCRIPT_MULTANI {
        ScriptFont::NotoSansMultani
    } else if script == HB_SCRIPT_MYANMAR {
        ScriptFont::NotoSerifMyanmar
    } else if script == HB_SCRIPT_NABATAEAN {
        ScriptFont::NotoSansNabataean
    } else if script == HB_SCRIPT_NEWA {
        ScriptFont::NotoSansNewa
    } else if script == HB_SCRIPT_NEW_TAI_LUE {
        ScriptFont::NotoSansNewTaiLue
    } else if script == HB_SCRIPT_NKO {
        ScriptFont::NotoSansNKo
    } else if script == HB_SCRIPT_OGHAM {
        ScriptFont::NotoSansOgham
    } else if script == HB_SCRIPT_OLD_HUNGARIAN {
        ScriptFont::NotoSansOldHungarian
    } else if script == HB_SCRIPT_OLD_ITALIC {
        ScriptFont::NotoSansOldItalic
    } else if script == HB_SCRIPT_OLD_NORTH_ARABIAN {
        ScriptFont::NotoSansOldNorthArabian
    } else if script == HB_SCRIPT_OLD_PERMIC {
        ScriptFont::NotoSansOldPermic
    } else if script == HB_SCRIPT_OLD_PERSIAN {
        ScriptFont::NotoSansOldPersian
    } else if script == HB_SCRIPT_OLD_SOUTH_ARABIAN {
        ScriptFont::NotoSansOldSouthArabian
    } else if script == HB_SCRIPT_OLD_TURKIC {
        ScriptFont::NotoSansOldTurkic
    } else if script == HB_SCRIPT_OL_CHIKI {
        ScriptFont::NotoSansOlChiki
    } else if script == HB_SCRIPT_ORIYA {
        ScriptFont::NotoSansOriya
    } else if script == HB_SCRIPT_OSAGE {
        ScriptFont::NotoSansOsage
    } else if script == HB_SCRIPT_OSMANYA {
        ScriptFont::NotoSansOsmanya
    } else if script == HB_SCRIPT_PAHAWH_HMONG {
        ScriptFont::NotoSansPahawhHmong
    } else if script == HB_SCRIPT_PALMYRENE {
        ScriptFont::NotoSansPalmyrene
    } else if script == HB_SCRIPT_PAU_CIN_HAU {
        ScriptFont::NotoSansPauCinHau
    } else if script == HB_SCRIPT_PHAGS_PA {
        ScriptFont::NotoSansPhagsPa
    } else if script == HB_SCRIPT_PHOENICIAN {
        ScriptFont::NotoSansPhoenician
    } else if script == HB_SCRIPT_PSALTER_PAHLAVI {
        ScriptFont::NotoSansPsalterPahlavi
    } else if script == HB_SCRIPT_REJANG {
        ScriptFont::NotoSansRejang
    } else if script == HB_SCRIPT_RUNIC {
        ScriptFont::NotoSansRunic
    } else if script == HB_SCRIPT_SAMARITAN {
        ScriptFont::NotoSansSamaritan
    } else if script == HB_SCRIPT_SAURASHTRA {
        ScriptFont::NotoSansSaurashtra
    } else if script == HB_SCRIPT_SHARADA {
        ScriptFont::NotoSansSharada
    } else if script == HB_SCRIPT_SHAVIAN {
        ScriptFont::NotoSansShavian
    } else if script == HB_SCRIPT_SIDDHAM {
        ScriptFont::NotoSansSiddham
    } else if script == HB_SCRIPT_SINHALA {
        ScriptFont::NotoSerifSinhala
    } else if script == HB_SCRIPT_SORA_SOMPENG {
        ScriptFont::NotoSansSoraSompeng
    } else if script == HB_SCRIPT_SUNDANESE {
        ScriptFont::NotoSansSundanese
    } else if script == HB_SCRIPT_SYLOTI_NAGRI {
        ScriptFont::NotoSansSylotiNagri
    } else if script == HB_SCRIPT_TAGALOG {
        ScriptFont::NotoSansTagalog
    } else if script == HB_SCRIPT_TAGBANWA {
        ScriptFont::NotoSansTagbanwa
    } else if script == HB_SCRIPT_TAI_LE {
        ScriptFont::NotoSansTaiLe
    } else if script == HB_SCRIPT_TAI_THAM {
        ScriptFont::NotoSansTaiTham
    } else if script == HB_SCRIPT_TAI_VIET {
        ScriptFont::NotoSansTaiViet
    } else if script == HB_SCRIPT_TAKRI {
        ScriptFont::NotoSansTakri
    } else if script == HB_SCRIPT_TAMIL {
        ScriptFont::NotoSerifTamil
    } else if script == HB_SCRIPT_TELUGU {
        ScriptFont::NotoSerifTelugu
    } else if script == HB_SCRIPT_THAANA {
        ScriptFont::NotoSansThaana
    } else if script == HB_SCRIPT_THAI {
        ScriptFont::NotoSerifThai
    } else if script == HB_SCRIPT_TIBETAN {
        ScriptFont::NotoSerifTibetan
    } else if script == HB_SCRIPT_TIFINAGH {
        ScriptFont::NotoSansTifinagh
    } else if script == HB_SCRIPT_TIRHUTA {
        ScriptFont::NotoSansTirhuta
    } else if script == HB_SCRIPT_UGARITIC {
        ScriptFont::NotoSansUgaritic
    } else if script == HB_SCRIPT_VAI {
        ScriptFont::NotoSansVai
    } else if script == HB_SCRIPT_WARANG_CITI {
        ScriptFont::NotoSansWarangCiti
    } else if script == HB_SCRIPT_YI {
        ScriptFont::NotoSansYi
    } else if script == HB_SCRIPT_BRAILLE {
        ScriptFont::NotoSansSymbols2
    } else {
        ScriptFont::DroidSansFallback
    }
}

/// The font of a symbol set: Droid Sans for the symbols that have no set.
pub open spec fn symbol_font(s: SymbolScript) -> ScriptFont {
    match s {
        SymbolScript::Maths => ScriptFont::NotoSansMath,
        SymbolScript::Music => ScriptFont::NotoMusic,
        SymbolScript::MiscOne => ScriptFont::NotoSansSymbols,
        SymbolScript::MiscTwo => ScriptFont::NotoSansSymbols2,
        SymbolScript::Emoji => ScriptFont::NotoEmoji,
        SymbolScript::Unknown => ScriptFont::DroidSansFallback,
    }
}

/// The font that draws the symbols of a set.
pub fn font_for_symbol(s: SymbolScript) -> (f: ScriptFont)
    ensures
        f == symbol_font(s),
{
    match s {
        SymbolScript::Maths => ScriptFont::NotoSansMath,
        SymbolScript::Music => ScriptFont::NotoMusic,
        SymbolScript::MiscOne => ScriptFont::NotoSansSymbols,
        SymbolScript::MiscTwo => ScriptFont::NotoSansSymbols2,
        SymbolScript::Emoji => ScriptFont::NotoEmoji,
        SymbolScript::Unknown => ScriptFont::DroidSansFallback,
    }
}

} // verus!
