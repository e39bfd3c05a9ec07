//! A torrent group: one release with its torrents and credited artists.

use vstd::prelude::*;
use crate::models::artist::Artist;
use crate::models::format::Format;
use crate::models::torrent::{Torrent, media_info_spec};
use crate::numeric::{decimal_spec, decimal_string};
use crate::text::{join, join_spec, views, utf8_len, utf8_len_exceeds};

verus! {

/// A release as the tracker groups it.
#[derive(Clone, Debug)]
pub struct TorrentGroup {
    pub id: u64,
    pub name: String,
    pub year: u32,
    pub torrents: Vec<Torrent>,
    pub composers: Vec<Artist>,
    pub dj: Vec<Artist>,
    pub artists: Vec<Artist>,
    pub with_artists: Vec<Artist>,
    pub conductor: Vec<Artist>,
    pub remixed_by: Vec<Artist>,
    pub producer: Vec<Artist>,
}

/// The tracker's answer to a torrent group request.
pub struct TorrentGroupApiResponse {
    pub group: GroupData,
    pub torrents: Vec<Torrent>,
}

/// The group part of a torrent group answer.
pub struct GroupData {
    pub group_id: u64,
    pub group_name: String,
    pub group_year: u32,
    pub music_info: MusicInfo,
}

/// The artists credited on a release, by role.
pub struct MusicInfo {
    pub composers: Vec<Artist>,
    pub dj: Vec<Artist>,
    pub artists: Vec<Artist>,
    pub with_artists: Vec<Artist>,
    pub conductor: Vec<Artist>,
    pub remixed_by: Vec<Artist>,
    pub producer: Vec<Artist>,
}

/// `t` with its group set to `group_id`.
pub open spec fn in_group(t: Torrent, group_id: u64) -> Torrent {
    Torrent { group_id: Some(group_id), ..t }
}

/// The names of a list of artists.
pub open spec fn artist_names(a: Seq<Artist>) -> Seq<Seq<char>> {
    a.map_values(|x: Artist| x.name@)
}

/// How a list of names is credited: one name as is, two as `A & B`, more as
/// `A, B, & C` unless that exceeds 50 bytes, which gives `Various Artists`.
pub open spec fn credit_spec(names: Seq<Seq<char>>) -> Seq<char> {
    if names.len() == 0 {
        "Unknown"@
    } else if names.len() == 1 {
        names[0]
    } else if names.len() == 2 {
        names[0] + " & "@ + names[1]
    } else {
        let r = join_spec(names.drop_last(), ", "@) + ", & "@ + names.last();
        if utf8_len(r) > 50 {
            "Various Artists"@
        } else {
            r
        }
    }
}

/// How names are credited, in terms of the UTF-8 text: no name is
/// `Unknown`, one name is itself, two are `A & B`, and three or more are
/// `A, B, ..., & Z` unless that text is longer than 50 bytes, in which case
/// (and only then, however many names there are) they are `Various Artists`.
pub proof fn lemma_credit(names: Seq<Seq<char>>)
    ensures
        names.len() == 0 ==> credit_spec(names) == "Unknown"@,
        names.len() == 1 ==> credit_spec(names) == names[0],
        names.len() == 2 ==> credit_spec(names) == names[0] + " & "@ + names[1],
        names.len() >= 3 ==> ({
            let joined = join_spec(names.drop_last(), ", "@) + ", & "@ + names.last();
            credit_spec(names) == if vstd::utf8::encode_utf8(joined).len() > 50 {
                "Various Artists"@
            } else {
                joined
            }
        }),
{
    if names.len() >= 3 {
        let joined = join_spec(names.drop_last(), ", "@) + ", & "@ + names.last();
        crate::text::lemma_utf8_len(joined);
    }
}

/// The artist line of a group: its composers, else its DJs, else its main
/// artists, and `Unknown` when there are none of these.
pub open spec fn artist_string_spec(g: TorrentGroup) -> Seq<char> {
    if g.composers@.len() > 0 {
        credit_spec(artist_names(g.composers@))
    } else if g.dj@.len() > 0 {
        credit_spec(artist_names(g.dj@))
    } else if g.artists@.len() > 0 {
        credit_spec(artist_names(g.artists@))
    } else {
        "Unknown"@
    }
}

/// A character that may not stand in a directory name; with `allow_slash`,
/// `/` is let through.
pub open spec fn is_invalid_name_char(c: char, allow_slash: bool) -> bool {
    ||| c == '?'
    ||| c == '<'
    ||| c == '>'
    ||| c == '\\'
    ||| c == '*'
    ||| c == '|'
    ||| c == '"'
    ||| c == ':'
    ||| (c == '/' && !allow_slash)
}

/// `s` with every invalid character replaced by `_`.
pub open spec fn sanitize_spec(s: Seq<char>, allow_slash: bool) -> Seq<char> {
    s.map_values(|c: char| if is_invalid_name_char(c, allow_slash) { '_' } else { c })
}

/// `s` with every invalid character replaced by `_`.
pub fn sanitize_name(s: &str, allow_slash: bool) -> (r: String)
    ensures
        r@ == sanitize_spec(s@, allow_slash),
{
    let v = crate::text::chars_of(s);
    let mut r = String::new();
    let mut i: usize = 0;
    while i < v.len()
        invariant
            v@ == s@,
            0 <= i <= v.len(),
            r@ == sanitize_spec(s@.take(i as int), allow_slash),
        decreases v.len() - i,
    {
        let c = v[i];
        let invalid = c == '?' || c == '<' || c == '>' || c == '\\' || c == '*' || c == '|' || c == '"'
            || c == ':' || (c == '/' && !allow_slash);
        if invalid {
            crate::text::push_char(&mut r, '_');
        } else {
            crate::text::push_char(&mut r, c);
        }
        assert(sanitize_spec(s@.take(i + 1), allow_slash) =~= sanitize_spec(s@.take(i as int), allow_slash).push(
            if invalid { '_' } else { c }));
        i = i + 1;
    }
    assert(s@.take(v@.len() as int) =~= s@);
    r
}

/// A sanitized name holds no invalid character, has the same length, and
/// sanitizing it again changes nothing.
pub proof fn lemma_sanitize_clean(s: Seq<char>, allow_slash: bool)
    ensures
        forall|i: int| 0 <= i < sanitize_spec(s, allow_slash).len()
            ==> !is_invalid_name_char(#[trigger] sanitize_spec(s, allow_slash)[i], allow_slash),
        sanitize_spec(s, allow_slash).len() == s.len(),
        sanitize_spec(sanitize_spec(s, allow_slash), allow_slash) == sanitize_spec(s, allow_slash),
{
    assert(sanitize_spec(sanitize_spec(s, allow_slash), allow_slash) =~= sanitize_spec(s, allow_slash));
}

/// At most the first `n` characters of `s`.
pub open spec fn prefix_chars(s: Seq<char>, n: nat) -> Seq<char> {
    if s.len() <= n {
        s
    } else {
        s.take(n as int)
    }
}

/// The directory name of a transcode:
/// `Artist - Year - Name {media info} [Format]`, with the name cut to 100
/// characters and invalid characters replaced by `_`.
pub open spec fn transcode_dirname_spec(g: TorrentGroup, source: Torrent, target: Format) -> Seq<char> {
    sanitize_spec(
        artist_string_spec(g) + " - "@ + decimal_spec(g.year as nat) + " - "@ + prefix_chars(g.name@, 100)
            + seq![' '] + media_info_spec(source.media@, source.remaster_title@, source.remaster_year) + " ["@
            + target.long_name@ + seq![']'],
        false,
    )
}

/// A transcode's directory name is one path component: it holds none of
/// the characters `? < > \\ * | " : /`.
pub proof fn lemma_transcode_dirname_clean(g: TorrentGroup, source: Torrent, target: Format)
    ensures
        forall|i: int| 0 <= i < transcode_dirname_spec(g, source, target).len()
            ==> !is_invalid_name_char(#[trigger] transcode_dirname_spec(g, source, target)[i], false),
        !transcode_dirname_spec(g, source, target).contains('/'),
{
    let raw = artist_string_spec(g) + " - "@ + decimal_spec(g.year as nat) + " - "@ + prefix_chars(g.name@, 100)
        + seq![' '] + media_info_spec(source.media@, source.remaster_title@, source.remaster_year) + " ["@
        + target.long_name@ + seq![']'];
    lemma_sanitize_clean(raw, false);
    let d = transcode_dirname_spec(g, source, target);
    if d.contains('/') {
        let i = choose|i: int| 0 <= i < d.len() && d[i] == '/';
        assert(!is_invalid_name_char(d[i], false));
    }
}

/// The names of `a`.
fn names_of(a: &Vec<Artist>) -> (r: Vec<String>)
    ensures
        views(r@) == artist_names(a@),
{
    let mut r: Vec<String> = Vec::new();
    let mut i: usize = 0;
    while i < a.len()
        invariant
            0 <= i <= a.len(),
            views(r@) == artist_names(a@.take(i as int)),
        decreases a.len() - i,
    {
        let ghost before = views(r@);
        let n = a[i].name.clone();
        r.push(n);
        assert(views(r@) =~= before.push(a@[i as int].name@));
        assert(artist_names(a@.take(i + 1)) =~= artist_names(a@.take(i as int)).push(a@[i as int].name@));
        i = i + 1;
    }
    assert(a@.take(a@.len() as int) =~= a@);
    r
}

/// The credit line for a list of artists.
fn credit(a: &Vec<Artist>) -> (s: String)
    ensures
        s@ == credit_spec(artist_names(a@)),
{
    let names = names_of(a);
    let n = names.len();
    if n == 0 {
        String::from_str("Unknown")
    } else if n == 1 {
        assert(views(names@)[0] == names@[0]@);
        names[0].clone()
    } else if n == 2 {
        assert(views(names@)[0] == names@[0]@);
        assert(views(names@)[1] == names@[1]@);
        let mut s = names[0].clone();
        s.append(" & ");
        s.append(names[1].as_str());
        assert(s@ == credit_spec(artist_names(a@)));
        s
    } else {
        let ghost all = views(names@);
        let mut firsts = names;
        let last = firsts.pop().unwrap();
        assert(views(firsts@) =~= all.drop_last());
        assert(all.last() == last@);
        let mut r = join(&firsts, ", ");
        r.append(", & ");
        r.append(last.as_str());
        if utf8_len_exceeds(r.as_str(), 50) {
            String::from_str("Various Artists")
        } else {
            r
        }
    }
}

impl TorrentGroup {
    /// Builds a group from the tracker's answer; every torrent is marked as
    /// belonging to the group.
    pub fn from_response(resp: TorrentGroupApiResponse) -> (g: TorrentGroup)
        ensures
            g.id == resp.group.group_id,
            g.name == resp.group.group_name,
            g.year == resp.group.group_year,
            g.torrents@.len() == resp.torrents@.len(),
            forall|i: int| 0 <= i < g.torrents@.len()
                ==> #[trigger] g.torrents@[i] == in_group(resp.torrents@[i], resp.group.group_id),
            g.composers == resp.group.music_info.composers,
            g.dj == resp.group.music_info.dj,
            g.artists == resp.group.music_info.artists,
            g.with_artists == resp.group.music_info.with_artists,
            g.conductor == resp.group.music_info.conductor,
            g.remixed_by == resp.group.music_info.remixed_by,
            g.producer == resp.group.music_info.producer,
    {
        let gid = resp.group.group_id;
        let ghost orig = resp.torrents@;
        let mut rest = resp.torrents;
        // Take the torrents off the back, then put them back in order.
        let mut reversed: Vec<Torrent> = Vec::new();
        while rest.len() > 0
            invariant
                rest@.len() + reversed@.len() == orig.len(),
                rest@ == orig.take(rest@.len() as int),
                forall|j: int| 0 <= j < reversed@.len()
                    ==> #[trigger] reversed@[j] == in_group(orig[orig.len() - 1 - j], gid),
            decreases rest.len(),
        {
            let mut t = rest.pop().unwrap();
            t.group_id = Some(gid);
            reversed.push(t);
        }
        let mut torrents: Vec<Torrent> = Vec::new();
        while reversed.len() > 0
            invariant
                reversed@.len() + torrents@.len() == orig.len(),
                forall|j: int| 0 <= j < reversed@.len()
                    ==> #[trigger] reversed@[j] == in_group(orig[orig.len() - 1 - j], gid),
                forall|j: int| 0 <= j < torrents@.len()
                    ==> #[trigger] torrents@[j] == in_group(orig[j], gid),
            decreases reversed.len(),
        {
            let t = reversed.pop().unwrap();
            torrents.push(t);
        }
        TorrentGroup {
            id: gid,
            name: resp.group.group_name,
            year: resp.group.group_year,
            torrents,
            composers: resp.group.music_info.composers,
            dj: resp.group.music_info.dj,
            artists: resp.group.music_info.artists,
            with_artists: resp.group.music_info.with_artists,
            conductor: resp.group.music_info.conductor,
            remixed_by: resp.group.music_info.remixed_by,
            producer: resp.group.music_info.producer,
        }
    }

    /// The artist line of the group (see `artist_string_spec`).
    pub fn formatted_artist_string(&self) -> (s: String)
        ensures
            s@ == artist_string_spec(*self),
    {
        if self.composers.len() != 0 {
            credit(&self.composers)
        } else if self.dj.len() != 0 {
            credit(&self.dj)
        } else if self.artists.len() != 0 {
            credit(&self.artists)
        } else {
            String::from_str("Unknown")
        }
    }

    /// The directory name for a transcode of `source` to `target_format`.
    pub fn get_transcode_dirname(&self, source: &Torrent, target_format: &Format) -> (s: String)
        ensures
            s@ == transcode_dirname_spec(*self, *source, *target_format),
    {
        let name_chars = crate::text::chars_of(self.name.as_str());
        let cut = if name_chars.len() <= 100 { name_chars.len() } else { 100 };
        let name_truncated = crate::text::string_of_range(&name_chars, 0, cut);
        assert(name_truncated@ =~= prefix_chars(self.name@, 100));
        let mut d = self.formatted_artist_string();
        d.append(" - ");
        let year = decimal_string(self.year as u64);
        d.append(year.as_str());
        d.append(" - ");
        d.append(name_truncated.as_str());
        d.append(" ");
        let info = source.formatted_media_info();
        d.append(info.as_str());
        d.append(" [");
        d.append(target_format.long_name);
        d.append("]");
        proof {
            reveal_strlit(" ");
            reveal_strlit("]");
        }
        sanitize_name(d.as_str(), false)
    }
}

} // verus!
