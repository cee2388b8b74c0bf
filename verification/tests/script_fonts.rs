use plato::font::SymbolScript;
use plato::script_fonts::{
    font_for_script, font_for_symbol, ScriptFont, HB_SCRIPT_ARABIC, HB_SCRIPT_BRAILLE, HB_SCRIPT_HAN,
    HB_SCRIPT_HANGUL, HB_SCRIPT_THAI,
};

#[test]
fn scripts_have_their_fonts() {
    assert_eq!(HB_SCRIPT_ARABIC, u32::from_be_bytes(*b"Arab"));
    assert_eq!(font_for_script(HB_SCRIPT_ARABIC), ScriptFont::NotoNaskhArabic);
    assert_eq!(font_for_script(HB_SCRIPT_HAN), ScriptFont::DroidSansFallback);
    assert_eq!(font_for_script(HB_SCRIPT_HANGUL), ScriptFont::DroidSansFallback);
    assert_eq!(font_for_script(HB_SCRIPT_THAI), ScriptFont::NotoSerifThai);
    assert_eq!(font_for_script(HB_SCRIPT_BRAILLE), ScriptFont::NotoSansSymbols2);
    assert_eq!(font_for_script(u32::from_be_bytes(*b"Latn")), ScriptFont::DroidSansFallback);
    assert_eq!(font_for_symbol(SymbolScript::Maths), ScriptFont::NotoSansMath);
    assert_eq!(font_for_symbol(SymbolScript::Emoji), ScriptFont::NotoEmoji);
    assert_eq!(font_for_symbol(SymbolScript::Unknown), ScriptFont::DroidSansFallback);
}
