//! Where a CJK fallback font is looked for on each platform.

use vstd::prelude::*;

verus! {

/// The platforms with font candidates.
#[derive(Clone, Copy, Debug, PartialEq, Eq)]
pub enum TargetOs {
    Linux,
    Windows,
    MacOs,
}

/// The font files tried, in order, on `os`.
pub open spec fn font_candidate_list(os: TargetOs) -> Seq<Seq<char>> {
    match os {
        TargetOs::Linux => seq![
            "/usr/share/fonts/opentype/noto/NotoSansCJK-Regular.ttc"@,
            "/usr/share/fonts/opentype/noto/NotoSerifCJK-Regular.ttc"@,
            "/usr/share/fonts/opentype/noto/NotoSansJP-Regular.otf"@,
            "/usr/share/fonts/truetype/fonts-japanese-gothic.ttf"@,
            "/usr/share/fonts/truetype/ipafont-gothic/ipag.ttf"@,
            "/usr/share/fonts/truetype/takao-gothic/TakaoPGothic.ttf"@,
            "/mnt/c/Windows/Fonts/BIZ-UDGothicR.ttc"@,
            "/mnt/c/Windows/Fonts/YuGothR.ttc"@,
            "/mnt/c/Windows/Fonts/YuGothM.ttc"@,
            "/mnt/c/Windows/Fonts/meiryo.ttc"@,
            "/mnt/c/Windows/Fonts/msgothic.ttc"@,
        ],
        TargetOs::Windows => seq![
            "C:\\Windows\\Fonts\\BIZ-UDGothicR.ttc"@,
            "C:\\Windows\\Fonts\\YuGothR.ttc"@,
            "C:\\Windows\\Fonts\\YuGothM.ttc"@,
            "C:\\Windows\\Fonts\\meiryo.ttc"@,
            "C:\\Windows\\Fonts\\msgothic.ttc"@,
        ],
        TargetOs::MacOs => seq![
            "/System/Library/Fonts/ヒラギノ角ゴシック W3.ttc"@,
            "/System/Library/Fonts/ヒラギノ角ゴシック W6.ttc"@,
            "/System/Library/Fonts/Hiragino Sans GB.ttc"@,
            "/System/Library/Fonts/Supplemental/Arial Unicode.ttf"@,
        ],
    }
}

/// The font files to try, in order, on `os`.
pub fn font_candidates(os: TargetOs) -> (r: Vec<&'static str>)
    ensures
        r@.map_values(|s: &'static str| s@) == font_candidate_list(os),
{
    let r: Vec<&'static str> = match os {
        TargetOs::Linux => vec![
            "/usr/share/fonts/opentype/noto/NotoSansCJK-Regular.ttc",
            "/usr/share/fonts/opentype/noto/NotoSerifCJK-Regular.ttc",
            "/usr/share/fonts/opentype/noto/NotoSansJP-Regular.otf",
            "/usr/share/fonts/truetype/fonts-japanese-gothic.ttf",
            "/usr/share/fonts/truetype/ipafont-gothic/ipag.ttf",
            "/usr/share/fonts/truetype/takao-gothic/TakaoPGothic.ttf",
            "/mnt/c/Windows/Fonts/BIZ-UDGothicR.ttc",
            "/mnt/c/Windows/Fonts/YuGothR.ttc",
            "/mnt/c/Windows/Fonts/YuGothM.ttc",
            "/mnt/c/Windows/Fonts/meiryo.ttc",
            "/mnt/c/Windows/Fonts/msgothic.ttc",
        ],
        TargetOs::Windows => vec![
            "C:\\Windows\\Fonts\\BIZ-UDGothicR.ttc",
            "C:\\Windows\\Fonts\\YuGothR.ttc",
            "C:\\Windows\\Fonts\\YuGothM.ttc",
            "C:\\Windows\\Fonts\\meiryo.ttc",
            "C:\\Windows\\Fonts\\msgothic.ttc",
        ],
        TargetOs::MacOs => vec![
            "/System/Library/Fonts/ヒラギノ角ゴシック W3.ttc",
            "/System/Library/Fonts/ヒラギノ角ゴシック W6.ttc",
            "/System/Library/Fonts/Hiragino Sans GB.ttc",
            "/System/Library/Fonts/Supplemental/Arial Unicode.ttf",
        ],
    };
    assert(r@.map_values(|s: &'static str| s@) =~= font_candidate_list(os));
    r
}

} // verus!
