use course_assets::content::{
    discover, file_entry, largest_variant, video_entry, Asset, AssetKind, Content, ContentBlock,
    DigitalGood, Discovery, FileAsset, Good, WistiaData, MISSING_FILE_URL,
};
use course_assets::embed::{embeds_in, present_captures, unescape_each};

fn variant(url: &str, file_size: usize) -> Asset {
    Asset { url: url.to_string(), file_size }
}

fn video(name: &str, assets: Vec<Asset>) -> WistiaData {
    WistiaData {
        name: Some(name.to_string()),
        kind: Some("Video".to_string()),
        assets: Some(assets),
    }
}

fn file(name: Option<&str>, original: Option<&str>) -> FileAsset {
    FileAsset { name: name.map(|n| n.to_string()), original: original.map(|o| o.to_string()) }
}

fn good(file: Option<FileAsset>, wistia_data: Option<WistiaData>) -> Good {
    Good { digital: DigitalGood { wistia_data, file } }
}

fn block(children: Vec<ContentBlock>, text: Option<&str>, goods: Option<Vec<Good>>) -> ContentBlock {
    ContentBlock { children, content: Content { text: text.map(|t| t.to_string()) }, goods }
}

#[test]
fn missing_file_is_skipped_and_the_largest_variant_is_taken() {
    let child = block(
        vec![],
        None,
        Some(vec![
            good(Some(file(Some("nothing"), Some(MISSING_FILE_URL))), None),
            good(
                None,
                Some(video(
                    "clip",
                    vec![
                        variant("https://v.example/100", 100),
                        variant("https://v.example/500", 500),
                        variant("https://v.example/50", 50),
                    ],
                )),
            ),
        ]),
    );
    let root = block(vec![child], None, None);
    let found = discover(&vec![root]);
    assert_eq!(
        found,
        vec![Discovery {
            url: "https://v.example/500".to_string(),
            name: Some("clip".to_string()),
            kind: AssetKind::Video,
        }]
    );
}

#[test]
fn children_come_before_the_blocks_own_text_and_goods() {
    let iframe = "<p>x</p><iframe width=\"1\" src=\"https://player.vimeo.com/video/42?h=a&amp;b=1\"></iframe>";
    let child = block(vec![], None, Some(vec![good(Some(file(None, Some("https://f.example/a.pdf"))), None)]));
    let parent = block(
        vec![child],
        Some(iframe),
        Some(vec![good(
            Some(file(Some("B"), Some("https://f.example/b.pdf"))),
            Some(video("V", vec![variant("https://v.example/1", 1)])),
        )]),
    );
    let second = block(vec![], Some("no player here"), Some(vec![]));
    let found = discover(&vec![parent, second]);
    let got: Vec<(String, Option<String>, AssetKind)> =
        found.into_iter().map(|d| (d.url, d.name, d.kind)).collect();
    assert_eq!(
        got,
        vec![
            ("https://f.example/a.pdf".to_string(), None, AssetKind::File),
            ("https://player.vimeo.com/video/42?h=a&b=1".to_string(), None, AssetKind::Embed),
            ("https://f.example/b.pdf".to_string(), Some("B".to_string()), AssetKind::File),
            ("https://v.example/1".to_string(), Some("V".to_string()), AssetKind::Video),
        ]
    );
    assert_eq!(discover(&Vec::new()), Vec::new());
}

#[test]
fn largest_variant_is_the_last_of_the_largest() {
    assert_eq!(largest_variant(&vec![]), None);
    assert_eq!(largest_variant(&vec![variant("a", 7)]), Some(0));
    assert_eq!(largest_variant(&vec![variant("a", 7), variant("b", 9), variant("c", 8)]), Some(1));
    assert_eq!(largest_variant(&vec![variant("a", 9), variant("b", 9), variant("c", 8)]), Some(1));
    assert_eq!(largest_variant(&vec![variant("a", 0), variant("b", 0)]), Some(1));
}

#[test]
fn files_and_videos_without_anything_to_fetch() {
    assert_eq!(file_entry(&file(Some("n"), None)), None);
    assert_eq!(file_entry(&file(Some("n"), Some(MISSING_FILE_URL))), None);
    assert_eq!(
        file_entry(&file(None, Some("https://f.example/x"))),
        Some(Discovery { url: "https://f.example/x".to_string(), name: None, kind: AssetKind::File })
    );
    assert_eq!(video_entry(&video("v", vec![])), None);
    assert_eq!(video_entry(&WistiaData { name: None, kind: None, assets: None }), None);
    assert_eq!(
        video_entry(&WistiaData { name: None, kind: None, assets: Some(vec![variant("u", 3)]) }),
        Some(Discovery { url: "u".to_string(), name: None, kind: AssetKind::Video })
    );
}

#[test]
fn players_are_found_in_the_text() {
    let text = "<iframe src=\"https://www.youtube.com/embed/abc\"></iframe> and \
                <iframe class=\"x\" src=\"https://player.vimeo.com/video/7?a=1&amp;b=2\" allowfullscreen></iframe> \
                <iframe src=\"https://evil.example/video\"></iframe>";
    assert_eq!(
        embeds_in(text),
        vec![
            "https://www.youtube.com/embed/abc".to_string(),
            "https://player.vimeo.com/video/7?a=1&b=2".to_string()
        ]
    );
    assert_eq!(embeds_in("nothing embedded"), Vec::<String>::new());
    assert_eq!(embeds_in(""), Vec::<String>::new());
}

#[test]
fn captures_that_are_present_are_kept_in_order() {
    let caps = vec![Some("a".to_string()), None, Some("b&amp;c".to_string()), None];
    let kept = present_captures(&caps);
    assert_eq!(kept, vec!["a".to_string(), "b&amp;c".to_string()]);
    assert_eq!(unescape_each(&kept), vec!["a".to_string(), "b&c".to_string()]);
    assert_eq!(present_captures(&vec![]), Vec::<String>::new());
}
