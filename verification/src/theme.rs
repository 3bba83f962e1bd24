//! Look and feel settings that are plain data.
use vstd::prelude::*;

verus! {

/// Font files tried, in order, for Chinese text: Microsoft YaHei and other
/// Windows fonts first, then Noto Sans CJK, WenQuanYi and DejaVu on Linux.
pub fn cjk_font_candidates() -> (paths: Vec<&'static str>)
    ensures
        paths@.map_values(|p: &str| p@) == seq![
            "C:/Windows/Fonts/msyh.ttc"@,
            "C:/Windows/Fonts/msyh.ttf"@,
            "C:/Windows/Fonts/msyhl.ttc"@,
            "C:/Windows/Fonts/Deng.ttf"@,
            "C:/Windows/Fonts/simhei.ttf"@,
            "C:/Windows/Fonts/simsun.ttc"@,
            "/usr/share/fonts/opentype/noto/NotoSansCJKsc-Regular.otf"@,
            "/usr/share/fonts/opentype/noto/NotoSansCJK-Regular.ttc"@,
            "/usr/share/fonts/truetype/noto/NotoSansCJK-Regular.ttc"@,
            "/usr/share/fonts/noto-cjk/NotoSansCJK-Regular.ttc"@,
            "/usr/share/fonts/google-noto-cjk/NotoSansCJK-Regular.ttc"@,
            "/usr/share/fonts/truetype/wqy/wqy-microhei.ttc"@,
            "/usr/share/fonts/wenquanyi/wqy-microhei/wqy-microhei.ttc"@,
            "/usr/share/fonts/truetype/dejavu/DejaVuSans.ttf"@,
        ],
{
    let paths = vec![
        "C:/Windows/Fonts/msyh.ttc",
        "C:/Windows/Fonts/msyh.ttf",
        "C:/Windows/Fonts/msyhl.ttc",
        "C:/Windows/Fonts/Deng.ttf",
        "C:/Windows/Fonts/simhei.ttf",
        "C:/Windows/Fonts/simsun.ttc",
        "/usr/share/fonts/opentype/noto/NotoSansCJKsc-Regular.otf",
        "/usr/share/fonts/opentype/noto/NotoSansCJK-Regular.ttc",
        "/usr/share/fonts/truetype/noto/NotoSansCJK-Regular.ttc",
        "/usr/share/fonts/noto-cjk/NotoSansCJK-Regular.ttc",
        "/usr/share/fonts/google-noto-cjk/NotoSansCJK-Regular.ttc",
        "/usr/share/fonts/truetype/wqy/wqy-microhei.ttc",
        "/usr/share/fonts/wenquanyi/wqy-microhei/wqy-microhei.ttc",
        "/usr/share/fonts/truetype/dejavu/DejaVuSans.ttf",
    ];
    assert(paths@.map_values(|p: &str| p@) =~= seq![
        "C:/Windows/Fonts/msyh.ttc"@,
        "C:/Windows/Fonts/msyh.ttf"@,
        "C:/Windows/Fonts/msyhl.ttc"@,
        "C:/Windows/Fonts/Deng.ttf"@,
        "C:/Windows/Fonts/simhei.ttf"@,
        "C:/Windows/Fonts/simsun.ttc"@,
        "/usr/share/fonts/opentype/noto/NotoSansCJKsc-Regular.otf"@,
        "/usr/share/fonts/opentype/noto/NotoSansCJK-Regular.ttc"@,
        "/usr/share/fonts/truetype/noto/NotoSansCJK-Regular.ttc"@,
        "/usr/share/fonts/noto-cjk/NotoSansCJK-Regular.ttc"@,
        "/usr/share/fonts/google-noto-cjk/NotoSansCJK-Regular.ttc"@,
        "/usr/share/fonts/truetype/wqy/wqy-microhei.ttc"@,
        "/usr/share/fonts/wenquanyi/wqy-microhei/wqy-microhei.ttc"@,
        "/usr/share/fonts/truetype/dejavu/DejaVuSans.ttf"@,
    ]);
    paths
}

} // verus!
