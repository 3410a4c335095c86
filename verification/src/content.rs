//! A lesson's nested content and the assets that can be downloaded from it.

use crate::embed::{embed_urls, embeds_in, opt_text, texts};
use vstd::prelude::*;

verus! {

/// The address that stands for "no file attached".
pub const MISSING_FILE_URL: &'static str =
    "https://api.elopage.com/pca/digitals/files/original/missing.png";

/// One encoded variant of a hosted video.
#[derive(Clone, Debug, PartialEq, Eq)]
pub struct Asset {
    pub url: String,
    pub file_size: usize,
}

/// A hosted video with its encoded variants.
#[derive(Clone, Debug, PartialEq, Eq)]
pub struct WistiaData {
    pub name: Option<String>,
    pub kind: Option<String>,
    pub assets: Option<Vec<Asset>>,
}

/// An attached file.
#[derive(Clone, Debug, PartialEq, Eq)]
pub struct FileAsset {
    pub name: Option<String>,
    pub original: Option<String>,
}

/// What a good holds: a hosted video, a file, both or neither.
#[derive(Clone, Debug, PartialEq, Eq)]
pub struct DigitalGood {
    pub wistia_data: Option<WistiaData>,
    pub file: Option<FileAsset>,
}

/// One attachable unit of a content block.
#[derive(Clone, Debug, PartialEq, Eq)]
pub struct Good {
    pub digital: DigitalGood,
}

/// The inline text of a content block.
#[derive(Clone, Debug, PartialEq, Eq)]
pub struct Content {
    pub text: Option<String>,
}

/// A node of a lesson's content.
#[derive(Debug, PartialEq, Eq)]
pub struct ContentBlock {
    pub children: Vec<ContentBlock>,
    pub content: Content,
    pub goods: Option<Vec<Good>>,
}

/// Where a discovered asset comes from, which decides how it is fetched: an
/// embed goes to the helper process, a file or a video is streamed to disk.
#[derive(Clone, Copy, Debug, PartialEq, Eq, Structural)]
pub enum AssetKind {
    Embed,
    File,
    Video,
}

/// One downloadable asset found in a lesson.
#[derive(Clone, Debug, PartialEq, Eq)]
pub struct Discovery {
    pub url: String,
    pub name: Option<String>,
    pub kind: AssetKind,
}

/// The model of a discovery.
pub ghost struct DiscoveryView {
    pub url: Seq<char>,
    pub name: Option<Seq<char>>,
    pub kind: AssetKind,
}

impl View for Discovery {
    type V = DiscoveryView;

    open spec fn view(&self) -> DiscoveryView {
        DiscoveryView { url: self.url@, name: opt_text(self.name), kind: self.kind }
    }
}

/// The models of a sequence of discoveries.
pub open spec fn discoveries(found: Seq<Discovery>) -> Seq<DiscoveryView> {
    found.map_values(|d: Discovery| d@)
}

/// The index of the largest variant; of several largest ones, the last.
pub open spec fn largest_index(assets: Seq<Asset>) -> int
    decreases assets.len(),
{
    if assets.len() <= 1 {
        0
    } else {
        let k = largest_index(assets.drop_last());
        if assets.last().file_size >= assets[k].file_size {
            assets.len() - 1
        } else {
            k
        }
    }
}

/// The largest variant is a variant, none is larger, and none behind it is
/// as large.
pub proof fn lemma_largest_index(assets: Seq<Asset>)
    requires
        assets.len() > 0,
    ensures
        0 <= largest_index(assets) < assets.len(),
        forall|i: int|
            0 <= i < assets.len() ==> (#[trigger] assets[i]).file_size
                <= assets[largest_index(assets)].file_size,
        forall|i: int|
            largest_index(assets) < i < assets.len() ==> (#[trigger] assets[i]).file_size
                < assets[largest_index(assets)].file_size,
    decreases assets.len(),
{
    if assets.len() > 1 {
        let front = assets.drop_last();
        lemma_largest_index(front);
        let k = largest_index(front);
        assert(front[k] == assets[k]);
        assert forall|i: int| 0 <= i < assets.len() implies (#[trigger] assets[i]).file_size
            <= assets[largest_index(assets)].file_size by {
            if i < front.len() {
                assert(front[i] == assets[i]);
            }
        }
        assert forall|i: int| largest_index(assets) < i < assets.len() implies (
        #[trigger] assets[i]).file_size < assets[largest_index(assets)].file_size by {
            if i < front.len() {
                assert(front[i] == assets[i]);
            }
        }
    }
}

/// The entry for an attached file: none where the file has no address or the
/// address that stands for a missing file.
pub open spec fn file_entries(file: Option<FileAsset>) -> Seq<DiscoveryView> {
    match file {
        Some(f) => match f.original {
            Some(url) => if url@ == MISSING_FILE_URL@ {
                Seq::empty()
            } else {
                seq![DiscoveryView { url: url@, name: opt_text(f.name), kind: AssetKind::File }]
            },
            None => Seq::empty(),
        },
        None => Seq::empty(),
    }
}

/// The entry for a hosted video: its largest variant, or none where it has
/// no variant.
pub open spec fn video_entries(video: Option<WistiaData>) -> Seq<DiscoveryView> {
    match video {
        Some(w) => match w.assets {
            Some(a) => if a@.len() == 0 {
                Seq::empty()
            } else {
                seq![
                    DiscoveryView {
                        url: a@[largest_index(a@)].url@,
                        name: opt_text(w.name),
                        kind: AssetKind::Video,
                    },
                ]
            },
            None => Seq::empty(),
        },
        None => Seq::empty(),
    }
}

/// The entries of the goods of one block: for each good its file, then its
/// video.
pub open spec fn goods_entries(goods: Seq<Good>) -> Seq<DiscoveryView>
    decreases goods.len(),
{
    if goods.len() == 0 {
        Seq::empty()
    } else {
        goods_entries(goods.drop_last()) + file_entries(goods.last().digital.file) + video_entries(
            goods.last().digital.wistia_data,
        )
    }
}

/// The entries of the players that a text embeds.
pub open spec fn embed_entries(urls: Seq<Seq<char>>) -> Seq<DiscoveryView> {
    urls.map_values(|u: Seq<char>| DiscoveryView { url: u, name: None, kind: AssetKind::Embed })
}

/// The entries of a block's own text and goods.
pub open spec fn own_entries(text: Option<String>, goods: Option<Vec<Good>>) -> Seq<DiscoveryView> {
    (match text {
        Some(t) => embed_entries(embed_urls(t@)),
        None => Seq::empty(),
    }) + (match goods {
        Some(g) => goods_entries(g@),
        None => Seq::empty(),
    })
}

/// The entries of one block: those of its children first, then those of its
/// text, then those of its goods.
pub open spec fn block_entries(block: ContentBlock) -> Seq<DiscoveryView>
    decreases block,
{
    blocks_entries(block.children@) + own_entries(block.content.text, block.goods)
}

/// The entries of a sequence of blocks, block after block.
pub open spec fn blocks_entries(blocks: Seq<ContentBlock>) -> Seq<DiscoveryView>
    decreases blocks,
{
    if blocks.len() == 0 {
        Seq::empty()
    } else {
        blocks_entries(blocks.drop_last()) + block_entries(blocks.last())
    }
}

/// A copy of a name that may be absent.
fn clone_name(name: &Option<String>) -> (r: Option<String>)
    ensures
        opt_text(r) == opt_text(*name),
{
    match name {
        Some(n) => Some(n.clone()),
        None => None,
    }
}

/// The index of the largest variant, if there is any variant.
pub fn largest_variant(assets: &Vec<Asset>) -> (r: Option<usize>)
    ensures
        assets@.len() == 0 ==> r is None,
        assets@.len() > 0 ==> r is Some && r->0 == largest_index(assets@) && r->0 < assets@.len(),
{
    if assets.len() == 0 {
        return None;
    }
    let mut best: usize = 0;
    let mut i: usize = 1;
    while i < assets.len()
        invariant
            1 <= i <= assets@.len(),
            best < i,
            best == largest_index(assets@.take(i as int)),
        decreases assets@.len() - i,
    {
        proof {
            assert(assets@.take(i + 1).drop_last() =~= assets@.take(i as int));
            assert(assets@.take(i + 1)[best as int] == assets@[best as int]);
        }
        if assets[i].file_size >= assets[best].file_size {
            best = i;
        }
        i += 1;
    }
    proof {
        assert(assets@.take(assets@.len() as int) =~= assets@);
    }
    Some(best)
}

/// The discovery for an attached file, if it has an address to fetch.
pub fn file_entry(file: &FileAsset) -> (r: Option<Discovery>)
    ensures
        match r {
            Some(d) => file_entries(Some(*file)) == seq![d@],
            None => file_entries(Some(*file)).len() == 0,
        },
{
    match &file.original {
        Some(url) => {
            let missing = String::from_str(MISSING_FILE_URL);
            if *url == missing {
                None
            } else {
                let found = Discovery {
                    url: url.clone(),
                    name: clone_name(&file.name),
                    kind: AssetKind::File,
                };
                proof {
                    assert(file_entries(Some(*file)) =~= seq![found@]);
                }
                Some(found)
            }
        },
        None => None,
    }
}

/// The discovery for a hosted video, if it has a variant.
pub fn video_entry(video: &WistiaData) -> (r: Option<Discovery>)
    ensures
        match r {
            Some(d) => video_entries(Some(*video)) == seq![d@],
            None => video_entries(Some(*video)).len() == 0,
        },
{
    match &video.assets {
        Some(assets) => match largest_variant(assets) {
            Some(k) => {
                let found = Discovery {
                    url: assets[k].url.clone(),
                    name: clone_name(&video.name),
                    kind: AssetKind::Video,
                };
                proof {
                    assert(video_entries(Some(*video)) =~= seq![found@]);
                }
                Some(found)
            },
            None => None,
        },
        None => None,
    }
}

/// Appends the discoveries of the goods of one block.
fn discover_goods(goods: &Vec<Good>, out: &mut Vec<Discovery>)
    ensures
        discoveries(final(out)@) == discoveries(old(out)@) + goods_entries(goods@),
{
    let ghost start = discoveries(out@);
    let mut i: usize = 0;
    proof {
        assert(goods@.take(0) =~= Seq::<Good>::empty());
        assert(start + goods_entries(goods@.take(0)) =~= start);
    }
    while i < goods.len()
        invariant
            i <= goods@.len(),
            discoveries(out@) == start + goods_entries(goods@.take(i as int)),
        decreases goods@.len() - i,
    {
        let ghost before = out@;
        let ghost mid;
        proof {
            assert(goods@.take(i + 1).drop_last() =~= goods@.take(i as int));
        }
        if let Some(file) = &goods[i].digital.file {
            if let Some(d) = file_entry(file) {
                out.push(d);
            }
        }
        proof {
            mid = out@;
            assert(discoveries(mid) =~= discoveries(before) + file_entries(goods@[i as int].digital.file));
        }
        if let Some(video) = &goods[i].digital.wistia_data {
            if let Some(d) = video_entry(video) {
                out.push(d);
            }
        }
        proof {
            assert(discoveries(out@) =~= discoveries(mid) + video_entries(
                goods@[i as int].digital.wistia_data,
            ));
            assert(discoveries(out@) =~= start + goods_entries(goods@.take(i + 1)));
        }
        i += 1;
    }
    proof {
        assert(goods@.take(goods@.len() as int) =~= goods@);
    }
}

/// Appends one embed discovery for each address.
fn discover_embeds(urls: Vec<String>, out: &mut Vec<Discovery>)
    ensures
        discoveries(final(out)@) == discoveries(old(out)@) + embed_entries(texts(urls@)),
{
    let ghost start = discoveries(out@);
    let mut i: usize = 0;
    while i < urls.len()
        invariant
            i <= urls@.len(),
            discoveries(out@) =~= start + embed_entries(texts(urls@)).take(i as int),
        decreases urls@.len() - i,
    {
        let ghost before = out@;
        let found = Discovery { url: urls[i].clone(), name: None, kind: AssetKind::Embed };
        proof {
            let all = embed_entries(texts(urls@));
            assert(all.take(i + 1) =~= all.take(i as int).push(found@));
        }
        out.push(found);
        proof {
            assert(discoveries(out@) =~= discoveries(before).push(found@));
        }
        i += 1;
    }
    proof {
        assert(embed_entries(texts(urls@)).take(urls@.len() as int) =~= embed_entries(texts(urls@)));
    }
}

/// Appends the discoveries of `blocks` to `out`.
pub fn discover_into(blocks: &Vec<ContentBlock>, out: &mut Vec<Discovery>)
    ensures
        discoveries(final(out)@) == discoveries(old(out)@) + blocks_entries(blocks@),
    decreases blocks@,
{
    let ghost start = discoveries(out@);
    let mut i: usize = 0;
    proof {
        assert(blocks@.take(0) =~= Seq::<ContentBlock>::empty());
        assert(start + blocks_entries(blocks@.take(0)) =~= start);
    }
    while i < blocks.len()
        invariant
            i <= blocks@.len(),
            discoveries(out@) == start + blocks_entries(blocks@.take(i as int)),
        decreases blocks@.len() - i,
    {
        let ghost before = discoveries(out@);
        let block = &blocks[i];
        proof {
            assert(blocks@.take(i + 1).drop_last() =~= blocks@.take(i as int));
            assert(blocks@.take(i + 1).last() == *block);
        }
        discover_into(&block.children, out);
        let ghost after_children = discoveries(out@);
        if let Some(text) = &block.content.text {
            discover_embeds(embeds_in(text.as_str()), out);
        }
        let ghost after_text = discoveries(out@);
        if let Some(goods) = &block.goods {
            discover_goods(goods, out);
        }
        proof {
            assert(discoveries(out@) =~= before + block_entries(*block));
            assert(discoveries(out@) =~= start + blocks_entries(blocks@.take(i + 1)));
        }
        i += 1;
    }
    proof {
        assert(blocks@.take(blocks@.len() as int) =~= blocks@);
    }
}

/// The downloadable assets of a lesson's content: for each block, those of
/// its children first, then the players that its text embeds, then its goods
/// (of each good the file, unless it is missing, then the largest variant of
/// the video).
pub fn discover(blocks: &Vec<ContentBlock>) -> (r: Vec<Discovery>)
    ensures
        discoveries(r@) == blocks_entries(blocks@),
{
    let mut out: Vec<Discovery> = Vec::new();
    proof {
        assert(discoveries(out@) =~= Seq::<DiscoveryView>::empty());
    }
    discover_into(blocks, &mut out);
    proof {
        assert(Seq::<DiscoveryView>::empty() + blocks_entries(blocks@) =~= blocks_entries(blocks@));
    }
    out
}

} // verus!
