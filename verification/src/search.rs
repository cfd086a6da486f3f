//! Searching lyrics across services: the entries shown for the songs found.

use vstd::prelude::*;
use crate::kugou::{KugouSongList, KugouSongModel};
use crate::lyric_file::{LyricSource, LyricSourceModel};
use crate::netease::{NeteaseSongList, NeteaseSongModel};

verus! {

/// One search result as shown: title, artist and the service.
pub struct SearchRes {
    pub title: String,
    pub artist: String,
    pub source: String,
}

/// The abstract content of a search result.
pub struct SearchResModel {
    pub title: Seq<char>,
    pub artist: Seq<char>,
    pub source: Seq<char>,
}

impl View for SearchRes {
    type V = SearchResModel;

    open spec fn view(&self) -> SearchResModel {
        SearchResModel { title: self.title@, artist: self.artist@, source: self.source@ }
    }
}

/// The entry shown for a Kugou song.
pub open spec fn kugou_entry(s: KugouSongModel) -> SearchResModel {
    SearchResModel { title: s.name, artist: s.artist, source: "Kugou"@ }
}

/// The entry shown for a Netease song.
pub open spec fn netease_entry(s: NeteaseSongModel) -> SearchResModel {
    SearchResModel { title: s.name, artist: s.artist, source: "Netease"@ }
}

/// The entries of the songs found (Kugou's first, then Netease's, each in
/// the order found); the songs are added, in the same order, to the
/// remembered sources.
pub fn search_results(
    kugou: Option<&KugouSongList>,
    netease: Option<&NeteaseSongList>,
    sources: &mut Vec<LyricSource>,
) -> (r: Vec<SearchRes>)
    ensures
        ({
            let ks = match kugou {
                Some(l) => l.songs(),
                None => Seq::<KugouSongModel>::empty(),
            };
            let ns = match netease {
                Some(l) => l.songs(),
                None => Seq::<NeteaseSongModel>::empty(),
            };
            &&& r@.map_values(|e: SearchRes| e@) == ks.map_values(|s: KugouSongModel| kugou_entry(s))
                + ns.map_values(|s: NeteaseSongModel| netease_entry(s))
            &&& final(sources)@.map_values(|e: LyricSource| e@) == old(sources)@.map_values(
                |e: LyricSource| e@,
            ) + ks.map_values(|s: KugouSongModel| LyricSourceModel::Kugou(s)) + ns.map_values(
                |s: NeteaseSongModel| LyricSourceModel::Netease(s),
            )
        }),
{
    let ghost ks = match kugou {
        Some(l) => l.songs(),
        None => Seq::<KugouSongModel>::empty(),
    };
    let ghost ns = match netease {
        Some(l) => l.songs(),
        None => Seq::<NeteaseSongModel>::empty(),
    };
    let ghost src0 = sources@.map_values(|e: LyricSource| e@);
    let mut rsp: Vec<SearchRes> = Vec::new();
    if let Some(k) = kugou {
        let mut i: usize = 0;
        while i < k.0.len()
            invariant
                i <= k.songs().len(),
                ks == k.songs(),
                rsp@.map_values(|e: SearchRes| e@) == ks.take(i as int).map_values(
                    |s: KugouSongModel| kugou_entry(s),
                ),
                sources@.map_values(|e: LyricSource| e@) == src0 + ks.take(i as int).map_values(
                    |s: KugouSongModel| LyricSourceModel::Kugou(s),
                ),
            decreases k.songs().len() - i,
        {
            let song = &k.0[i];
            assert(ks[i as int] == song@);
            let ghost rb = rsp@.map_values(|e: SearchRes| e@);
            let ghost sb = sources@.map_values(|e: LyricSource| e@);
            proof {
                assert(ks.take(i + 1).map_values(|s: KugouSongModel| kugou_entry(s)) =~= ks.take(i as int).map_values(
                    |s: KugouSongModel| kugou_entry(s),
                ).push(kugou_entry(song@)));
                assert(ks.take(i + 1).map_values(|s: KugouSongModel| LyricSourceModel::Kugou(s)) =~= ks.take(i as int).map_values(
                    |s: KugouSongModel| LyricSourceModel::Kugou(s),
                ).push(LyricSourceModel::Kugou(song@)));
            }
            rsp.push(
                SearchRes {
                    title: song.name.clone(),
                    artist: song.artist.clone(),
                    source: String::from_str("Kugou"),
                },
            );
            assert(rsp@.map_values(|e: SearchRes| e@) =~= rb.push(kugou_entry(song@)));
            sources.push(LyricSource::Kugou(song.copy()));
            assert(sources@.map_values(|e: LyricSource| e@) =~= sb.push(LyricSourceModel::Kugou(song@)));
            i = i + 1;
            assert(rsp@.map_values(|e: SearchRes| e@) =~= ks.take(i as int).map_values(
                |s: KugouSongModel| kugou_entry(s),
            ));
            assert(sources@.map_values(|e: LyricSource| e@) =~= src0 + ks.take(i as int).map_values(
                |s: KugouSongModel| LyricSourceModel::Kugou(s),
            ));
        }
        assert(ks.take(i as int) =~= ks);
    } else {
        assert(rsp@.map_values(|e: SearchRes| e@) =~= ks.map_values(|s: KugouSongModel| kugou_entry(s)));
        assert(sources@.map_values(|e: LyricSource| e@) =~= src0 + ks.map_values(
            |s: KugouSongModel| LyricSourceModel::Kugou(s),
        ));
    }
    let ghost r1 = rsp@.map_values(|e: SearchRes| e@);
    let ghost s1 = sources@.map_values(|e: LyricSource| e@);
    if let Some(n) = netease {
        let mut i: usize = 0;
        while i < n.0.len()
            invariant
                i <= n.songs().len(),
                ns == n.songs(),
                rsp@.map_values(|e: SearchRes| e@) == r1 + ns.take(i as int).map_values(
                    |s: NeteaseSongModel| netease_entry(s),
                ),
                sources@.map_values(|e: LyricSource| e@) == s1 + ns.take(i as int).map_values(
                    |s: NeteaseSongModel| LyricSourceModel::Netease(s),
                ),
            decreases n.songs().len() - i,
        {
            let song = &n.0[i];
            assert(ns[i as int] == song@);
            let ghost rb = rsp@.map_values(|e: SearchRes| e@);
            let ghost sb = sources@.map_values(|e: LyricSource| e@);
            proof {
                assert(ns.take(i + 1).map_values(|s: NeteaseSongModel| netease_entry(s)) =~= ns.take(i as int).map_values(
                    |s: NeteaseSongModel| netease_entry(s),
                ).push(netease_entry(song@)));
                assert(ns.take(i + 1).map_values(|s: NeteaseSongModel| LyricSourceModel::Netease(s)) =~= ns.take(i as int).map_values(
                    |s: NeteaseSongModel| LyricSourceModel::Netease(s),
                ).push(LyricSourceModel::Netease(song@)));
            }
            rsp.push(
                SearchRes {
                    title: song.name.clone(),
                    artist: song.artist.clone(),
                    source: String::from_str("Netease"),
                },
            );
            assert(rsp@.map_values(|e: SearchRes| e@) =~= rb.push(netease_entry(song@)));
            sources.push(LyricSource::Netease(song.copy()));
            assert(sources@.map_values(|e: LyricSource| e@) =~= sb.push(LyricSourceModel::Netease(song@)));
            i = i + 1;
            assert(rsp@.map_values(|e: SearchRes| e@) =~= r1 + ns.take(i as int).map_values(
                |s: NeteaseSongModel| netease_entry(s),
            ));
            assert(sources@.map_values(|e: LyricSource| e@) =~= s1 + ns.take(i as int).map_values(
                |s: NeteaseSongModel| LyricSourceModel::Netease(s),
            ));
        }
        assert(ns.take(i as int) =~= ns);
    } else {
        assert(r1 =~= r1 + ns.map_values(|s: NeteaseSongModel| netease_entry(s)));
        assert(s1 =~= s1 + ns.map_values(|s: NeteaseSongModel| LyricSourceModel::Netease(s)));
    }
    rsp
}

} // verus!
