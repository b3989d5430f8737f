//! Artist metadata enrichment: the link-picking and text-normalizing logic.
//! Fetching relation lists and biography pages from the outside services is
//! the surrounding program's job; it hands the relations in as plain
//! values and formats page text through [`ArtistMetadata::trim_whitespace`].

use vstd::prelude::*;
use crate::tags::opt_text;
use crate::text::{push_char, str_eq};

verus! {

broadcast use vstd::string::group_string_axioms;

/// One relation of an artist as the metadata service reports it: its kind,
/// and the target's address when the relation points at a page.
pub struct RelationInfo {
    pub relation_type: String,
    pub url: Option<String>,
}

/// The enrichment record collected for one artist.
pub struct ArtistMetadata {
    pub biography: Option<String>,
    pub image: Option<String>,
    pub twitter: Option<String>,
    pub instagram: Option<String>,
    pub all_music: Option<String>,
    pub amazon_music: Option<String>,
    pub apple_music: Option<String>,
    pub beatport: Option<String>,
    pub facebook: Option<String>,
    pub discogs: Option<String>,
    pub imdb: Option<String>,
    pub deezer: Option<String>,
    pub spotify: Option<String>,
    pub tidal: Option<String>,
    pub tiktok: Option<String>,
    pub wiki: Option<String>,
    pub youtube: Option<String>,
}

/// The address of the last relation of the given kind that carries one.
pub open spec fn spec_last_url(rels: Seq<RelationInfo>, ty: Seq<char>) -> Option<Seq<char>>
    decreases rels.len(),
{
    if rels.len() == 0 {
        None
    } else if rels.last().relation_type@ == ty && rels.last().url is Some {
        Some(rels.last().url->0@)
    } else {
        spec_last_url(rels.drop_last(), ty)
    }
}

/// The address of the first relation of the given kind that carries one.
pub open spec fn spec_first_url(rels: Seq<RelationInfo>, ty: Seq<char>) -> Option<Seq<char>>
    decreases rels.len(),
{
    if rels.len() == 0 {
        None
    } else {
        match spec_first_url(rels.drop_last(), ty) {
            Some(u) => Some(u),
            None => if rels.last().relation_type@ == ty && rels.last().url is Some {
                Some(rels.last().url->0@)
            } else {
                None
            },
        }
    }
}

/// A character with the Unicode white-space property, as `str::trim`
/// removes at either end.
pub open spec fn spec_is_white(c: char) -> bool {
    ||| c == ' '
    ||| c == '\t'
    ||| c == '\n'
    ||| c == '\u{0B}'
    ||| c == '\u{0C}'
    ||| c == '\r'
    ||| c == '\u{85}'
    ||| c == '\u{A0}'
    ||| c == '\u{1680}'
    ||| ('\u{2000}' <= c && c <= '\u{200A}')
    ||| c == '\u{2028}'
    ||| c == '\u{2029}'
    ||| c == '\u{202F}'
    ||| c == '\u{205F}'
    ||| c == '\u{3000}'
}

fn is_white(c: char) -> (r: bool)
    ensures
        r == spec_is_white(c),
{
    c == ' ' || c == '\t' || c == '\n' || c == '\u{0B}' || c == '\u{0C}' || c == '\r' || c
        == '\u{85}' || c == '\u{A0}' || c == '\u{1680}' || ('\u{2000}' <= c && c <= '\u{200A}')
        || c == '\u{2028}' || c == '\u{2029}' || c == '\u{202F}' || c == '\u{205F}' || c
        == '\u{3000}'
}

/// `start` and `end` delimit the text left after trimming white space from
/// both ends.
pub open spec fn is_trim_bounds(s: Seq<char>, start: int, end: int) -> bool {
    &&& 0 <= start <= end <= s.len()
    &&& forall|j: int| 0 <= j < start ==> spec_is_white(#[trigger] s[j])
    &&& forall|j: int| end <= j < s.len() ==> spec_is_white(#[trigger] s[j])
    &&& start < end ==> !spec_is_white(s[start]) && !spec_is_white(s[end - 1])
}

/// The text with every run of plain spaces collapsed to one; `prev_space`
/// says whether the character before the text was a space.
pub open spec fn spec_collapse(s: Seq<char>, prev_space: bool) -> Seq<char>
    decreases s.len(),
{
    if s.len() == 0 {
        s
    } else {
        let rest = spec_collapse(s.skip(1), s[0] == ' ');
        if s[0] == ' ' && prev_space {
            rest
        } else {
            seq![s[0]] + rest
        }
    }
}

impl ArtistMetadata {
    /// An empty enrichment record.
    pub fn new() -> (m: ArtistMetadata)
        ensures
            m.biography is None,
            m.image is None,
            m.twitter is None,
            m.instagram is None,
            m.all_music is None,
            m.amazon_music is None,
            m.apple_music is None,
            m.beatport is None,
            m.facebook is None,
            m.discogs is None,
            m.imdb is None,
            m.deezer is None,
            m.spotify is None,
            m.tidal is None,
            m.tiktok is None,
            m.wiki is None,
            m.youtube is None,
    {
        ArtistMetadata {
            biography: None,
            image: None,
            twitter: None,
            instagram: None,
            all_music: None,
            amazon_music: None,
            apple_music: None,
            beatport: None,
            facebook: None,
            discogs: None,
            imdb: None,
            deezer: None,
            spotify: None,
            tidal: None,
            tiktok: None,
            wiki: None,
            youtube: None,
        }
    }

    /// Picks the link fields out of an artist's relation list: the last
    /// address of each recognized kind wins, except the first for the
    /// biography site, and a kind that never occurs leaves its field alone.
    /// The caller has already checked that relations were returned.
    pub fn get_links(&mut self, relations: &Option<Vec<RelationInfo>>)
        requires
            *relations is Some,
        ensures
            ({
                let rels = (*relations)->0@;
                &&& opt_text(final(self).youtube) == (match spec_last_url(rels, "youtube"@) {
                    Some(u) => Some(u),
                    None => opt_text(old(self).youtube),
                })
                &&& opt_text(final(self).wiki) == (match spec_last_url(rels, "wikidata"@) {
                    Some(u) => Some(u),
                    None => opt_text(old(self).wiki),
                })
                &&& opt_text(final(self).discogs) == (match spec_last_url(rels, "discogs"@) {
                    Some(u) => Some(u),
                    None => opt_text(old(self).discogs),
                })
                &&& opt_text(final(self).all_music) == (match opt_text(old(self).all_music) {
                    Some(u) => Some(u),
                    None => spec_first_url(rels, "allmusic"@),
                })
                &&& final(self).biography == old(self).biography
                &&& final(self).image == old(self).image
                &&& final(self).twitter == old(self).twitter
                &&& final(self).instagram == old(self).instagram
                &&& final(self).amazon_music == old(self).amazon_music
                &&& final(self).apple_music == old(self).apple_music
                &&& final(self).beatport == old(self).beatport
                &&& final(self).facebook == old(self).facebook
                &&& final(self).imdb == old(self).imdb
                &&& final(self).deezer == old(self).deezer
                &&& final(self).spotify == old(self).spotify
                &&& final(self).tidal == old(self).tidal
                &&& final(self).tiktok == old(self).tiktok
            }),
    {
        let rels = match relations {
            Some(rels) => rels,
            None => {
                return ;
            },
        };
        let ghost rseq = rels@;
        let n = rels.len();
        let mut i: usize = 0;
        proof {
            assert(rseq.take(0) =~= Seq::<RelationInfo>::empty());
        }
        while i < n
            invariant
                0 <= i <= n,
                n == rseq.len(),
                rseq == rels@,
                opt_text(self.youtube) == (match spec_last_url(rseq.take(i as int), "youtube"@) {
                    Some(u) => Some(u),
                    None => opt_text(old(self).youtube),
                }),
                opt_text(self.wiki) == (match spec_last_url(rseq.take(i as int), "wikidata"@) {
                    Some(u) => Some(u),
                    None => opt_text(old(self).wiki),
                }),
                opt_text(self.discogs) == (match spec_last_url(rseq.take(i as int), "discogs"@) {
                    Some(u) => Some(u),
                    None => opt_text(old(self).discogs),
                }),
                opt_text(self.all_music) == (match opt_text(old(self).all_music) {
                    Some(u) => Some(u),
                    None => spec_first_url(rseq.take(i as int), "allmusic"@),
                }),
                self.biography == old(self).biography,
                self.image == old(self).image,
                self.twitter == old(self).twitter,
                self.instagram == old(self).instagram,
                self.amazon_music == old(self).amazon_music,
                self.apple_music == old(self).apple_music,
                self.beatport == old(self).beatport,
                self.facebook == old(self).facebook,
                self.imdb == old(self).imdb,
                self.deezer == old(self).deezer,
                self.spotify == old(self).spotify,
                self.tidal == old(self).tidal,
                self.tiktok == old(self).tiktok,
            decreases n - i,
        {
            proof {
                assert(rseq.take(i + 1).drop_last() =~= rseq.take(i as int));
                assert(rseq.take(i + 1).last() == rseq[i as int]);
                reveal_strlit("youtube");
                reveal_strlit("allmusic");
                reveal_strlit("wikidata");
                reveal_strlit("discogs");
                assert("youtube"@.len() == 7);
                assert("allmusic"@.len() == 8);
                assert("wikidata"@.len() == 8);
                assert("discogs"@.len() == 7);
                assert("youtube"@[0] == 'y');
                assert("discogs"@[0] == 'd');
                assert("allmusic"@[0] == 'a');
                assert("wikidata"@[0] == 'w');
                assert("youtube"@ != "wikidata"@);
                assert("youtube"@ != "discogs"@);
                assert("youtube"@ != "allmusic"@);
                assert("allmusic"@ != "wikidata"@);
                assert("allmusic"@ != "discogs"@);
                assert("wikidata"@ != "discogs"@);
            }
            let rel = &rels[i];
            if str_eq(rel.relation_type.as_str(), "youtube") {
                match &rel.url {
                    Some(u) => {
                        self.youtube = Some(u.clone());
                    },
                    None => {},
                }
            } else if str_eq(rel.relation_type.as_str(), "allmusic") {
                match &rel.url {
                    Some(u) => {
                        if self.all_music.is_none() {
                            self.all_music = Some(u.clone());
                        }
                    },
                    None => {},
                }
            } else if str_eq(rel.relation_type.as_str(), "wikidata") {
                match &rel.url {
                    Some(u) => {
                        self.wiki = Some(u.clone());
                    },
                    None => {},
                }
            } else if str_eq(rel.relation_type.as_str(), "discogs") {
                match &rel.url {
                    Some(u) => {
                        self.discogs = Some(u.clone());
                    },
                    None => {},
                }
            }
            i = i + 1;
        }
        proof {
            assert(rseq.take(n as int) =~= rseq);
        }
    }

    /// Normalizes scraped page text: trims white space from both ends, then
    /// collapses every run of plain spaces into a single space.
    pub fn trim_whitespace(s: &str) -> (r: String)
        ensures
            exists|start: int, end: int|
                #[trigger] is_trim_bounds(s@, start, end) && r@ == spec_collapse(
                    s@.subrange(start, end),
                    true,
                ),
    {
        let n = s.unicode_len();
        let mut start: usize = 0;
        while start < n && is_white(s.get_char(start))
            invariant
                0 <= start <= n,
                n == s@.len(),
                forall|j: int| 0 <= j < start ==> spec_is_white(#[trigger] s@[j]),
            decreases n - start,
        {
            start = start + 1;
        }
        let mut end: usize = n;
        while end > start && is_white(s.get_char(end - 1))
            invariant
                start <= end <= n,
                n == s@.len(),
                forall|j: int| 0 <= j < start ==> spec_is_white(#[trigger] s@[j]),
                forall|j: int| end <= j < n ==> spec_is_white(#[trigger] s@[j]),
                start < n ==> !spec_is_white(s@[start as int]),
            decreases end,
        {
            end = end - 1;
        }
        proof {
            assert(is_trim_bounds(s@, start as int, end as int));
        }
        let ghost sub = s@.subrange(start as int, end as int);
        let mut out = String::new();
        let mut prev_space = true;
        let mut i: usize = start;
        proof {
            assert(sub.skip(0) =~= sub);
        }
        while i < end
            invariant
                start <= i <= end <= n,
                n == s@.len(),
                sub == s@.subrange(start as int, end as int),
                spec_collapse(sub, true) == out@ + spec_collapse(
                    sub.skip(i - start),
                    prev_space,
                ),
            decreases end - i,
        {
            let c = s.get_char(i);
            proof {
                assert(sub.skip(i - start)[0] == sub[i - start]);
                assert(sub[i - start] == s@[i as int]);
                assert(sub.skip(i - start).skip(1) =~= sub.skip(i - start + 1));
            }
            if c == ' ' && prev_space {
                proof {
                    assert(out@ + spec_collapse(sub.skip(i - start), prev_space) == out@
                        + spec_collapse(sub.skip(i - start + 1), true));
                }
            } else {
                let ghost out0 = out@;
                push_char(&mut out, c);
                proof {
                    assert(out@ =~= out0 + seq![c]);
                    assert(out0 + (seq![c] + spec_collapse(sub.skip(i - start + 1), c == ' '))
                        =~= (out0 + seq![c]) + spec_collapse(sub.skip(i - start + 1), c == ' '));
                }
            }
            prev_space = c == ' ';
            i = i + 1;
        }
        proof {
            assert(sub.skip(end - start) =~= Seq::<char>::empty());
            assert(out@ + Seq::<char>::empty() =~= out@);
        }
        out
    }
}

} // verus!
