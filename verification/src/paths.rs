//! Path composition: the storage files of an M3U target and the URL paths
//! of the web API.

use vstd::prelude::*;
use vstd::string::*;
use crate::text::{concat_str, starts_with, str_starts_with};

verus! {

/// `base` joined with the relative `name` (`Path::join`): no separator
/// after an empty base or one that ends in `/`.
pub open spec fn path_join(base: Seq<char>, name: Seq<char>) -> Seq<char> {
    if base.len() == 0 {
        name
    } else if base.last() == '/' {
        base + name
    } else {
        base + seq!['/'] + name
    }
}

/// Joins a relative file name to a directory path.
pub fn join_path(base: &str, name: &str) -> (r: String)
    ensures
        r@ == path_join(base@, name@),
{
    let n: usize = base.unicode_len();
    if n == 0 {
        String::from_str(name)
    } else if base.get_char(n - 1) == '/' {
        concat_str(base, name)
    } else {
        let mut s: String = concat_str(base, "/");
        s.append(name);
        proof {
            reveal_strlit("/");
        }
        assert(s@ =~= path_join(base@, name@));
        s
    }
}

/// The playlist database of an M3U target.
pub fn m3u_get_base_file_path(target_path: &str) -> (r: String)
    ensures
        r@ == path_join(target_path@, "m3u.db"@),
{
    join_path(target_path, "m3u.db")
}

/// The playlist database and its index (`m3u.db_idx`).
pub fn m3u_get_file_paths(target_path: &str) -> (r: (String, String))
    ensures
        r.0@ == path_join(target_path@, "m3u.db"@),
        r.1@ == path_join(target_path@, "m3u.db_idx"@),
{
    (join_path(target_path, "m3u.db"), join_path(target_path, "m3u.db_idx"))
}

/// The EPG file of an M3U target (`epg_m3u.xml`).
pub fn m3u_get_epg_file_path(target_path: &str) -> (r: String)
    ensures
        r@ == path_join(target_path@, "epg_m3u.xml"@),
{
    join_path(target_path, "epg_m3u.xml")
}

/// `s` without leading `c`s.
pub open spec fn trim_start_char(s: Seq<char>, c: char) -> Seq<char>
    decreases s.len(),
{
    if s.len() > 0 && s[0] == c {
        trim_start_char(s.drop_first(), c)
    } else {
        s
    }
}

/// Two path parts joined by exactly one `/`: trailing slashes of the first
/// and leading slashes of the second are dropped, and an empty part adds
/// nothing.
pub open spec fn concat_path(first: Seq<char>, second: Seq<char>) -> Seq<char> {
    let f = crate::text::trim_end_char(first, '/');
    let s = trim_start_char(second, '/');
    if f.len() == 0 {
        s
    } else if s.len() == 0 {
        f
    } else {
        f + seq!['/'] + s
    }
}

/// [`concat_path`] with a leading `/`.
pub open spec fn concat_path_leading_slash(first: Seq<char>, second: Seq<char>) -> Seq<char> {
    let p = concat_path(first, second);
    if p.len() > 0 && p[0] == '/' {
        p
    } else {
        seq!['/'] + p
    }
}

fn trim_start_char_str(s: &str, c: char) -> (r: &str)
    ensures
        r@ == trim_start_char(s@, c),
{
    let n: usize = s.unicode_len();
    let mut i: usize = 0;
    assert(s@.skip(0) =~= s@);
    while i < n && s.get_char(i) == c
        invariant
            n == s@.len(),
            i <= n,
            trim_start_char(s@.skip(i as int), c) == trim_start_char(s@, c),
        decreases n - i,
    {
        assert(s@.skip(i as int).drop_first() =~= s@.skip(i + 1));
        i = i + 1;
    }
    let r: &str = s.substring_char(i, n);
    assert(r@ =~= s@.skip(i as int));
    r
}

/// Joins two URL path parts with one `/` and makes the result start with `/`.
pub fn concat_path_leading_slash_str(first: &str, second: &str) -> (r: String)
    ensures
        r@ == concat_path_leading_slash(first@, second@),
{
    let f: &str = crate::text::trim_end_char_str(first, '/');
    let s: &str = trim_start_char_str(second, '/');
    let joined: String = if f.unicode_len() == 0 {
        String::from_str(s)
    } else if s.unicode_len() == 0 {
        String::from_str(f)
    } else {
        let mut j: String = concat_str(f, "/");
        j.append(s);
        proof {
            reveal_strlit("/");
        }
        assert(j@ =~= f@ + seq!['/'] + s@);
        j
    };
    let n: usize = joined.as_str().unicode_len();
    if n > 0 && joined.as_str().get_char(0) == '/' {
        joined
    } else {
        proof {
            reveal_strlit("/");
        }
        let r: String = concat_str("/", joined.as_str());
        assert(r@ =~= seq!['/'] + joined@);
        r
    }
}

/// The API paths of the web UI's playlist service.
pub struct PlaylistService {
    target_update_api_path: String,
    playlist_api_path: String,
    playlist_api_webplayer_url_path: String,
    playlist_api_epg_path: String,
}

impl PlaylistService {
    pub closed spec fn spec_paths(self) -> (Seq<char>, Seq<char>, Seq<char>, Seq<char>) {
        (
            self.target_update_api_path@,
            self.playlist_api_path@,
            self.playlist_api_webplayer_url_path@,
            self.playlist_api_epg_path@,
        )
    }

    /// The service for a page whose base reference is `base_href`.
    pub fn new(base_href: &str) -> (r: PlaylistService)
        ensures
            r.spec_paths() == (
                concat_path_leading_slash(base_href@, "api/v1/playlist/update"@),
                concat_path_leading_slash(base_href@, "api/v1/playlist"@),
                concat_path_leading_slash(base_href@, "api/v1/playlist/webplayer"@),
                concat_path_leading_slash(base_href@, "api/v1/playlist/epg"@),
            ),
    {
        PlaylistService {
            target_update_api_path: concat_path_leading_slash_str(base_href, "api/v1/playlist/update"),
            playlist_api_path: concat_path_leading_slash_str(base_href, "api/v1/playlist"),
            playlist_api_webplayer_url_path: concat_path_leading_slash_str(
                base_href,
                "api/v1/playlist/webplayer",
            ),
            playlist_api_epg_path: concat_path_leading_slash_str(base_href, "api/v1/playlist/epg"),
        }
    }

    pub fn target_update_api_path(&self) -> (r: &str)
        ensures
            r@ == self.spec_paths().0,
    {
        self.target_update_api_path.as_str()
    }

    pub fn playlist_api_path(&self) -> (r: &str)
        ensures
            r@ == self.spec_paths().1,
    {
        self.playlist_api_path.as_str()
    }

    pub fn playlist_api_webplayer_url_path(&self) -> (r: &str)
        ensures
            r@ == self.spec_paths().2,
    {
        self.playlist_api_webplayer_url_path.as_str()
    }

    pub fn playlist_api_epg_path(&self) -> (r: &str)
        ensures
            r@ == self.spec_paths().3,
    {
        self.playlist_api_epg_path.as_str()
    }
}

} // verus!
