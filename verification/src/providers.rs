//! The provider adapters: the URL each site is queried under, and the
//! extraction of a title and download entries from the pages it serves.
//!
//! Fetching a page is the caller's affair; every function here computes over
//! page text that is handed in. Extraction fails soft: a page without the
//! expected title element yields no result, a link that the labeling
//! heuristic cannot name is left out.

use crate::html::attrs_of;
use crate::html::first_attr_of;
use crate::html::first_text_of;
use crate::html::fragments_of;
use crate::html::select_attrs;
use crate::html::select_fragments;
use crate::html::select_first_attr;
use crate::html::select_first_text;
use crate::label::lemma_find_char_agrees;
use crate::label::label_of_url;
use crate::label::spec_find_char;
use crate::label::spec_label;
use crate::label::spec_titlecase;
use crate::label::titlecase;
use crate::registry::pairs_model;
use crate::text::find_char_from;
use crate::text::replace_char;
use crate::text::replace_str;
use crate::text::spec_replace;
use crate::text::spec_trim;
use crate::text::string_views;
use crate::text::trim;
use vstd::prelude::*;
use vstd::string::StrSliceExecFns;
use vstd::string::StringExecFns;

verus! {

/// What a provider hands back for a game: a page title and the download
/// entries, each a label with its URL, in page order.
pub struct FetchResult {
    pub title: String,
    pub entries: Vec<(String, String)>,
}

/// Mathematical model of a fetch result.
pub struct FetchModel {
    pub title: Seq<char>,
    pub entries: Seq<(Seq<char>, Seq<char>)>,
}

impl View for FetchResult {
    type V = FetchModel;

    open spec fn view(&self) -> FetchModel {
        FetchModel { title: self.title@, entries: pairs_model(self.entries@) }
    }
}

/// How one attempt against a provider ended.
pub enum FetchOutcome {
    /// The page was there and gave a title and entries.
    Found(FetchResult),
    /// The site answered that it has no such page.
    NotFound,
    /// The site could not be reached at all.
    TransportError,
}

/// A 404-class answer counts as the page not being there.
pub fn is_not_found_status(code: u16) -> (r: bool)
    ensures
        r == (code == 404),
{
    code == 404
}

/// The form a game name is queried under: spaces become dashes.
pub fn normalize_game_name(name: &str) -> (r: String)
    ensures
        r@ == name@.map_values(|c: char| if c == ' ' { '-' } else { c }),
{
    replace_char(name, ' ', '-')
}

/// The SteamRIP page for a normalized game name.
pub fn steamrip_url(name: &str) -> (r: String)
    ensures
        r@ == "https://steamrip.com/"@ + name@,
{
    let mut u = String::new();
    u.append("https://steamrip.com/");
    u.append(name);
    proof {
        assert(u@ =~= "https://steamrip.com/"@ + name@);
    }
    u
}

/// The Game3rb page for a normalized game name.
pub fn game3rb_url(name: &str) -> (r: String)
    ensures
        r@ == "https://game3rb.com/"@ + name@,
{
    let mut u = String::new();
    u.append("https://game3rb.com/");
    u.append(name);
    proof {
        assert(u@ =~= "https://game3rb.com/"@ + name@);
    }
    u
}

/// The GOG Games page for a normalized game name; this site writes
/// underscores where the query name has dashes.
pub fn gog_games_url(name: &str) -> (r: String)
    ensures
        r@ == "https://gog-games.to/game/"@ + name@.map_values(
            |c: char| if c == '-' { '_' } else { c },
        ),
{
    let under = replace_char(name, '-', '_');
    let mut u = String::new();
    u.append("https://gog-games.to/game/");
    u.append(under.as_str());
    proof {
        assert(u@ =~= "https://gog-games.to/game/"@ + under@);
    }
    u
}

/// The entries that a per-link rule keeps, in order, from a sequence of raw
/// link values.
pub open spec fn filter_map_entries(
    hs: Seq<Seq<char>>,
    f: spec_fn(Seq<char>) -> Option<(Seq<char>, Seq<char>)>,
) -> Seq<(Seq<char>, Seq<char>)>
    decreases hs.len(),
{
    if hs.len() == 0 {
        Seq::empty()
    } else {
        match f(hs[0]) {
            Some(e) => seq![e] + filter_map_entries(hs.drop_first(), f),
            None => filter_map_entries(hs.drop_first(), f),
        }
    }
}

proof fn lemma_filter_map_snoc(
    hs: Seq<Seq<char>>,
    x: Seq<char>,
    f: spec_fn(Seq<char>) -> Option<(Seq<char>, Seq<char>)>,
)
    ensures
        filter_map_entries(hs.push(x), f) == if f(x) is Some {
            filter_map_entries(hs, f).push(f(x)->Some_0)
        } else {
            filter_map_entries(hs, f)
        },
    decreases hs.len(),
{
    if hs.len() == 0 {
        assert(hs.push(x)[0] == x);
        assert(hs.push(x).drop_first() =~= Seq::<Seq<char>>::empty());
        assert(filter_map_entries(hs.push(x).drop_first(), f) =~= Seq::<(
            Seq<char>,
            Seq<char>,
        )>::empty());
        if f(x) is Some {
            assert(seq![f(x)->Some_0] + Seq::<(Seq<char>, Seq<char>)>::empty() =~= Seq::<(
                Seq<char>,
                Seq<char>,
            )>::empty().push(f(x)->Some_0));
        }
    } else {
        assert(hs.push(x)[0] == hs[0]);
        assert(hs.push(x).drop_first() =~= hs.drop_first().push(x));
        lemma_filter_map_snoc(hs.drop_first(), x, f);
        if f(hs[0]) is Some && f(x) is Some {
            assert(seq![f(hs[0])->Some_0] + filter_map_entries(hs.drop_first(), f).push(
                f(x)->Some_0,
            ) =~= (seq![f(hs[0])->Some_0] + filter_map_entries(hs.drop_first(), f)).push(
                f(x)->Some_0,
            ));
        }
    }
}

/// A SteamRIP title, cleaned for display.
pub open spec fn steamrip_title(t: Seq<char>) -> Seq<char> {
    spec_trim(spec_replace(t, " Free Download"@, Seq::empty()))
}

/// The entry a SteamRIP download button yields: the host component after
/// the protocol-relative `//`, titlecased, and the URL completed with
/// `https:`; nothing when the link has no dot past that prefix.
pub open spec fn steamrip_entry(href: Seq<char>) -> Option<(Seq<char>, Seq<char>)> {
    match spec_find_char(href, '.', 0) {
        None => None,
        Some(d) => if d <= 2 {
            None
        } else {
            Some((spec_titlecase(href.subrange(2, d)), "https:"@ + href))
        },
    }
}

/// The entries of a SteamRIP page, from its button links in page order.
pub open spec fn steamrip_entries(hs: Seq<Seq<char>>) -> Seq<(Seq<char>, Seq<char>)> {
    filter_map_entries(hs, |h: Seq<char>| steamrip_entry(h))
}

/// Extract title and download entries from a SteamRIP page.
pub fn extract_steamrip(page: &str) -> (r: Option<FetchResult>)
    ensures
        match first_text_of(page@, "h1.post-title"@) {
            None => r is None,
            Some(t) => r matches Some(fr) && fr@.title == steamrip_title(t) && fr@.entries
                == steamrip_entries(attrs_of(page@, "a.shortc-button"@, "href"@)),
        },
{
    let raw_title = select_first_text(page, "h1.post-title");
    let raw = match raw_title {
        Some(t) => t,
        None => {
            return None;
        },
    };
    proof {
        reveal_strlit(" Free Download");
        reveal_strlit("");
        assert(""@ =~= Seq::<char>::empty());
    }
    let cleaned = replace_str(raw.as_str(), " Free Download", "");
    let title = trim(cleaned.as_str());
    let hrefs = select_attrs(page, "a.shortc-button", "href");
    let ghost hv = string_views(hrefs@);
    let mut entries: Vec<(String, String)> = Vec::new();
    proof {
        assert(pairs_model(entries@) =~= steamrip_entries(hv.subrange(0, 0)));
    }
    let count = hrefs.len();
    let mut i: usize = 0;
    while i < count
        invariant
            i <= count,
            count == hrefs@.len(),
            hv == string_views(hrefs@),
            pairs_model(entries@) == steamrip_entries(hv.subrange(0, i as int)),
        decreases count - i,
    {
        let href = &hrefs[i];
        let dot = find_char_from(href.as_str(), '.', 0);
        proof {
            lemma_find_char_agrees(href@, '.', 0);
            assert(hv[i as int] == href@);
        }
        match dot {
            Some(d) => {
                if d > 2 {
                    let seg = href.as_str().substring_char(2, d);
                    let lab = titlecase(seg);
                    let mut url = String::new();
                    url.append("https:");
                    url.append(href.as_str());
                    proof {
                        assert(url@ =~= "https:"@ + href@);
                    }
                    entries.push((lab, url));
                }
            },
            None => {},
        }
        proof {
            lemma_filter_map_snoc(
                hv.subrange(0, i as int),
                hv[i as int],
                |h: Seq<char>| steamrip_entry(h),
            );
            assert(hv.subrange(0, i + 1) =~= hv.subrange(0, i as int).push(hv[i as int]));
            assert(pairs_model(entries@) =~= steamrip_entries(hv.subrange(0, i + 1)));
        }
        i = i + 1;
    }
    proof {
        assert(hv.subrange(0, count as int) =~= hv);
    }
    Some(FetchResult { title, entries })
}

/// A Game3rb title, cleaned for display.
pub open spec fn game3rb_title(t: Seq<char>) -> Seq<char> {
    spec_trim(spec_replace(spec_replace(t, "Download "@, Seq::empty()), " + OnLine"@, " + Online"@))
}

/// Extract from a Game3rb game page its cleaned title and the link to the
/// page that carries the download list.
pub fn extract_game3rb_page(page: &str) -> (r: Option<(String, String)>)
    ensures
        match first_text_of(page@, "h1.post-title"@) {
            None => r is None,
            Some(t) => match first_attr_of(page@, "a#download-link.direct"@, "href"@) {
                None => r is None,
                Some(h) => r matches Some(p) && p.0@ == game3rb_title(t) && p.1@ == h,
            },
        },
{
    let raw = match select_first_text(page, "h1.post-title") {
        Some(t) => t,
        None => {
            return None;
        },
    };
    let link = match select_first_attr(page, "a#download-link.direct", "href") {
        Some(h) => h,
        None => {
            return None;
        },
    };
    proof {
        reveal_strlit("Download ");
        reveal_strlit(" + OnLine");
        reveal_strlit(" + Online");
        reveal_strlit("");
        assert(""@ =~= Seq::<char>::empty());
    }
    let c1 = replace_str(raw.as_str(), "Download ", "");
    let c2 = replace_str(c1.as_str(), " + OnLine", " + Online");
    let title = trim(c2.as_str());
    Some((title, link))
}

/// The entry a mirror link yields: the label the hostname heuristic gives
/// it, with the link itself; nothing when the heuristic gives no label.
pub open spec fn game3rb_entry(host: Seq<char>) -> Option<(Seq<char>, Seq<char>)> {
    match spec_label(host) {
        None => None,
        Some(lab) => Some((lab, host)),
    }
}

/// The entries of a Game3rb download-links page, in page order.
pub open spec fn game3rb_entries(hs: Seq<Seq<char>>) -> Seq<(Seq<char>, Seq<char>)> {
    filter_map_entries(hs, |h: Seq<char>| game3rb_entry(h))
}

/// Extract the mirror entries from a Game3rb download-links page.
pub fn extract_game3rb_links(page: &str) -> (r: Vec<(String, String)>)
    ensures
        pairs_model(r@) == game3rb_entries(attrs_of(page@, "ol li a"@, "href"@)),
{
    let hosts = select_attrs(page, "ol li a", "href");
    let ghost hv = string_views(hosts@);
    let mut entries: Vec<(String, String)> = Vec::new();
    proof {
        assert(pairs_model(entries@) =~= game3rb_entries(hv.subrange(0, 0)));
    }
    let count = hosts.len();
    let mut i: usize = 0;
    while i < count
        invariant
            i <= count,
            count == hosts@.len(),
            hv == string_views(hosts@),
            pairs_model(entries@) == game3rb_entries(hv.subrange(0, i as int)),
        decreases count - i,
    {
        let host = &hosts[i];
        let lab = label_of_url(host.as_str());
        proof {
            assert(hv[i as int] == host@);
        }
        match lab {
            Some(l) => {
                entries.push((l, host.clone()));
            },
            None => {},
        }
        proof {
            lemma_filter_map_snoc(
                hv.subrange(0, i as int),
                hv[i as int],
                |h: Seq<char>| game3rb_entry(h),
            );
            assert(hv.subrange(0, i + 1) =~= hv.subrange(0, i as int).push(hv[i as int]));
            assert(pairs_model(entries@) =~= game3rb_entries(hv.subrange(0, i + 1)));
        }
        i = i + 1;
    }
    proof {
        assert(hv.subrange(0, count as int) =~= hv);
    }
    entries
}

/// The entry one download item yields: its label element's `title`
/// attribute with the link target; nothing when either is missing.
pub open spec fn gog_item_entry(item: Seq<char>) -> Option<(Seq<char>, Seq<char>)> {
    match first_attr_of(item, "label"@, "title"@) {
        None => None,
        Some(lab) => match first_attr_of(item, "div.items-group a"@, "href"@) {
            None => None,
            Some(h) => Some((lab, h)),
        },
    }
}

/// The entries of one link group: its items in order, when the group has a
/// title element; a group without one is skipped.
pub open spec fn gog_group_entries(g: Seq<char>) -> Seq<(Seq<char>, Seq<char>)> {
    match first_text_of(g, "div.title"@) {
        None => Seq::empty(),
        Some(t) => filter_map_entries(
            fragments_of(g, "div.item-expand.wrap"@),
            |it: Seq<char>| gog_item_entry(it),
        ),
    }
}

/// The entries of a GOG Games page: those of its link groups, in order.
pub open spec fn gog_entries(groups: Seq<Seq<char>>) -> Seq<(Seq<char>, Seq<char>)>
    decreases groups.len(),
{
    if groups.len() == 0 {
        Seq::empty()
    } else {
        gog_group_entries(groups[0]) + gog_entries(groups.drop_first())
    }
}

proof fn lemma_gog_entries_snoc(gs: Seq<Seq<char>>, g: Seq<char>)
    ensures
        gog_entries(gs.push(g)) == gog_entries(gs) + gog_group_entries(g),
    decreases gs.len(),
{
    if gs.len() == 0 {
        assert(gs.push(g)[0] == g);
        assert(gs.push(g).drop_first() =~= Seq::<Seq<char>>::empty());
        assert(gog_entries(gs.push(g).drop_first()) =~= Seq::<(Seq<char>, Seq<char>)>::empty());
        assert(gog_group_entries(g) + Seq::<(Seq<char>, Seq<char>)>::empty() =~= gog_group_entries(
            g,
        ));
        assert(gog_entries(gs) + gog_group_entries(g) =~= gog_group_entries(g));
    } else {
        assert(gs.push(g)[0] == gs[0]);
        assert(gs.push(g).drop_first() =~= gs.drop_first().push(g));
        lemma_gog_entries_snoc(gs.drop_first(), g);
        assert(gog_group_entries(gs[0]) + (gog_entries(gs.drop_first()) + gog_group_entries(g))
            =~= (gog_group_entries(gs[0]) + gog_entries(gs.drop_first())) + gog_group_entries(g));
    }
}

/// Extract title and download entries from a GOG Games page.
pub fn extract_gog_games(page: &str) -> (r: Option<FetchResult>)
    ensures
        match first_text_of(page@, "div.index h1"@) {
            None => r is None,
            Some(t) => r matches Some(fr) && fr@.title == t && fr@.entries == gog_entries(
                fragments_of(page@, "div.items-links-block div"@),
            ),
        },
{
    let title = match select_first_text(page, "div.index h1") {
        Some(t) => t,
        None => {
            return None;
        },
    };
    let groups = select_fragments(page, "div.items-links-block div");
    let ghost gv = string_views(groups@);
    let mut entries: Vec<(String, String)> = Vec::new();
    proof {
        assert(pairs_model(entries@) =~= gog_entries(gv.subrange(0, 0)));
    }
    let gcount = groups.len();
    let mut gi: usize = 0;
    while gi < gcount
        invariant
            gi <= gcount,
            gcount == groups@.len(),
            gv == string_views(groups@),
            pairs_model(entries@) == gog_entries(gv.subrange(0, gi as int)),
        decreases gcount - gi,
    {
        let group = &groups[gi];
        proof {
            assert(gv[gi as int] == group@);
        }
        let gtitle = select_first_text(group.as_str(), "div.title");
        let ghost before = pairs_model(entries@);
        match gtitle {
            Some(_) => {
                let items = select_fragments(group.as_str(), "div.item-expand.wrap");
                let ghost iv = string_views(items@);
                let icount = items.len();
                proof {
                    assert(pairs_model(entries@) =~= before + filter_map_entries(
                        iv.subrange(0, 0),
                        |it: Seq<char>| gog_item_entry(it),
                    ));
                }
                let mut ii: usize = 0;
                while ii < icount
                    invariant
                        ii <= icount,
                        icount == items@.len(),
                        iv == string_views(items@),
                        pairs_model(entries@) == before + filter_map_entries(
                            iv.subrange(0, ii as int),
                            |it: Seq<char>| gog_item_entry(it),
                        ),
                    decreases icount - ii,
                {
                    let item = &items[ii];
                    proof {
                        assert(iv[ii as int] == item@);
                    }
                    let lab = select_first_attr(item.as_str(), "label", "title");
                    let href = select_first_attr(item.as_str(), "div.items-group a", "href");
                    if lab.is_some() && href.is_some() {
                        let l = lab.unwrap();
                        let h = href.unwrap();
                        let ghost ebefore = entries@;
                        entries.push((l, h));
                        proof {
                            assert(gog_item_entry(iv[ii as int]) == Some((l@, h@)));
                            assert((|it: Seq<char>| gog_item_entry(it))(iv[ii as int])
                                == gog_item_entry(iv[ii as int]));
                            lemma_filter_map_snoc(
                                iv.subrange(0, ii as int),
                                iv[ii as int],
                                |it: Seq<char>| gog_item_entry(it),
                            );
                            assert(iv.subrange(0, ii + 1) =~= iv.subrange(0, ii as int).push(
                                iv[ii as int],
                            ));
                            assert(filter_map_entries(
                                iv.subrange(0, ii + 1),
                                |it: Seq<char>| gog_item_entry(it),
                            ) == filter_map_entries(
                                iv.subrange(0, ii as int),
                                |it: Seq<char>| gog_item_entry(it),
                            ).push((l@, h@)));
                            assert(pairs_model(entries@) =~= pairs_model(ebefore).push((l@, h@)));
                            assert(pairs_model(entries@) =~= before + filter_map_entries(
                                iv.subrange(0, ii + 1),
                                |it: Seq<char>| gog_item_entry(it),
                            ));
                        }
                    } else {
                        proof {
                            assert(gog_item_entry(iv[ii as int]) is None);
                            lemma_filter_map_snoc(
                                iv.subrange(0, ii as int),
                                iv[ii as int],
                                |it: Seq<char>| gog_item_entry(it),
                            );
                            assert(iv.subrange(0, ii + 1) =~= iv.subrange(0, ii as int).push(
                                iv[ii as int],
                            ));
                            assert(pairs_model(entries@) =~= before + filter_map_entries(
                                iv.subrange(0, ii + 1),
                                |it: Seq<char>| gog_item_entry(it),
                            ));
                        }
                    }
                    ii = ii + 1;
                }
                proof {
                    assert(iv.subrange(0, icount as int) =~= iv);
                    assert(pairs_model(entries@) =~= before + gog_group_entries(gv[gi as int]));
                }
            },
            None => {
                proof {
                    assert(gog_group_entries(gv[gi as int]) =~= Seq::<(Seq<char>, Seq<char>)>::empty());
                    assert(pairs_model(entries@) =~= before + gog_group_entries(gv[gi as int]));
                }
            },
        }
        proof {
            lemma_gog_entries_snoc(gv.subrange(0, gi as int), gv[gi as int]);
            assert(gv.subrange(0, gi + 1) =~= gv.subrange(0, gi as int).push(gv[gi as int]));
            assert(pairs_model(entries@) =~= gog_entries(gv.subrange(0, gi + 1)));
        }
        gi = gi + 1;
    }
    proof {
        assert(gv.subrange(0, gcount as int) =~= gv);
    }
    Some(FetchResult { title, entries })
}

} // verus!
