//! The library index: the tracks of one scan and the genre, artist and album
//! groups derived from them.
use vstd::prelude::*;
use crate::groups::{
    Group, GroupModel, groups_view, genre_groups, exact_groups, file_genre, file_exact, find_genre,
    first_where, genre_near,
    lemma_genre_groups_members, lemma_exact_groups_members, members_below,
};
use crate::text::{decimal, decimal_string, lowercase, lower_of, push_char, push_text, sort_texts, string_eq_str, text_le};

verus! {

/// One audio file and what its tags say; `duration` is in milliseconds.
#[derive(Clone, Debug)]
pub struct TrackMetadata {
    pub path: String,
    pub album: Option<String>,
    pub artist: Option<String>,
    pub genre: Option<String>,
    pub year: Option<u32>,
    pub duration: Option<u64>,
}

/// What a metadata reader found in one file, before the library's rules apply.
#[derive(Clone, Debug)]
pub struct TrackTags {
    pub album: Option<String>,
    pub artist: Option<String>,
    pub genre: Option<String>,
    pub year: Option<u32>,
    pub duration: Option<u64>,
}

#[derive(Clone, Copy, Debug, PartialEq, Eq)]
pub enum MetadataError {
    /// The container or its tags could not be parsed.
    Unreadable,
}

#[derive(Clone, Copy, Debug, PartialEq, Eq)]
pub enum ScanError {
    /// The root directory could not be opened.
    RootUnavailable,
}

/// A regular file met during a walk, with the result of reading its tags.
#[derive(Debug)]
pub struct ScannedFile {
    pub path: String,
    pub tags: Result<TrackTags, MetadataError>,
}

/// A tag value counts only when present and non-empty.
pub open spec fn present(o: Option<String>) -> Option<String> {
    match o {
        Some(s) => if s@.len() > 0 { Some(s) } else { None },
        None => None,
    }
}

/// The track that a scanned file becomes: unreadable tags leave every field empty.
pub open spec fn track_of(f: ScannedFile) -> TrackMetadata {
    match f.tags {
        Ok(t) => TrackMetadata {
            path: f.path,
            album: present(t.album),
            artist: present(t.artist),
            genre: present(t.genre),
            year: t.year,
            duration: t.duration,
        },
        Err(_) => TrackMetadata {
            path: f.path,
            album: None,
            artist: None,
            genre: None,
            year: None,
            duration: None,
        },
    }
}

/// Position of the last character of `s` equal to `a` or `b`, or -1.
pub open spec fn last_of(s: Seq<char>, a: char, b: char) -> int
    decreases s.len(),
{
    if s.len() == 0 {
        -1
    } else if s.last() == a || s.last() == b {
        s.len() - 1
    } else {
        last_of(s.drop_last(), a, b)
    }
}

/// The last component of a path; both `/` and `\` separate components.
pub open spec fn file_name(p: Seq<char>) -> Seq<char> {
    p.skip(last_of(p, '/', '\\') + 1)
}

/// The text after the last dot of the file name, unless the name starts with
/// that dot or has none.
pub open spec fn extension(p: Seq<char>) -> Option<Seq<char>> {
    let name = file_name(p);
    let d = last_of(name, '.', '.');
    if d > 0 {
        Some(name.skip(d + 1))
    } else {
        None
    }
}

/// The extensions that the index takes in, in lower case.
pub open spec fn supported_extension(e: Seq<char>) -> bool {
    e == seq!['m', 'p', '3'] || e == seq!['f', 'l', 'a', 'c'] || e == seq!['o', 'g', 'g']
        || e == seq!['w', 'a', 'v'] || e == seq!['m', '4', 'a'] || e == seq!['a', 'a', 'c']
        || e == seq!['w', 'm', 'a']
}

/// A path is indexed when its extension, lowercased, is a supported one.
pub open spec fn is_audio_path(p: Seq<char>) -> bool {
    match extension(p) {
        Some(e) => supported_extension(lower_of(e)),
        None => false,
    }
}

/// The tracks that a scan over `files` yields, in walk order.
pub open spec fn scanned_tracks(files: Seq<ScannedFile>) -> Seq<TrackMetadata>
    decreases files.len(),
{
    if files.len() == 0 {
        seq![]
    } else {
        let prev = scanned_tracks(files.drop_last());
        if is_audio_path(files.last().path@) {
            prev.push(track_of(files.last()))
        } else {
            prev
        }
    }
}

pub open spec fn opt_view(o: Option<String>) -> Option<Seq<char>> {
    match o {
        Some(s) => Some(s@),
        None => None,
    }
}

pub open spec fn genre_tags(ts: Seq<TrackMetadata>) -> Seq<Option<Seq<char>>> {
    ts.map_values(|t: TrackMetadata| opt_view(t.genre))
}

pub open spec fn artist_keys(ts: Seq<TrackMetadata>) -> Seq<Option<Seq<char>>> {
    ts.map_values(|t: TrackMetadata| opt_view(t.artist))
}

pub open spec fn album_keys(ts: Seq<TrackMetadata>) -> Seq<Option<Seq<char>>> {
    ts.map_values(|t: TrackMetadata| opt_view(t.album))
}

/// The genre groups of a track sequence.
pub open spec fn genre_index(ts: Seq<TrackMetadata>) -> Seq<GroupModel> {
    genre_groups(genre_tags(ts))
}

/// The artist groups of a track sequence.
pub open spec fn artist_index(ts: Seq<TrackMetadata>) -> Seq<GroupModel> {
    exact_groups(artist_keys(ts))
}

/// The album groups of a track sequence.
pub open spec fn album_index(ts: Seq<TrackMetadata>) -> Seq<GroupModel> {
    exact_groups(album_keys(ts))
}

/// The paths that a genre query returns: the tracks of the first group whose
/// normalized key lies within the merge distance of the normalized query.
pub open spec fn genre_playlist(ts: Seq<TrackMetadata>, q: Seq<char>) -> Seq<String> {
    let gs = genre_index(ts);
    let j = first_where(gs, genre_near(q));
    if j >= 0 {
        gs[j].members.map_values(|k: usize| ts[k as int].path)
    } else {
        seq![]
    }
}

/// The keys of the genre groups, in the order in which they were opened.
pub open spec fn genre_keys(ts: Seq<TrackMetadata>) -> Seq<Seq<char>> {
    genre_index(ts).map_values(|g: GroupModel| g.key)
}

/// Position of the first track whose path is `p`, or -1.
pub open spec fn track_position(ts: Seq<TrackMetadata>, p: Seq<char>) -> int
    decreases ts.len(),
{
    if ts.len() == 0 {
        -1
    } else {
        let k = track_position(ts.drop_last(), p);
        if k >= 0 {
            k
        } else if ts.last().path@ == p {
            ts.len() - 1
        } else {
            -1
        }
    }
}

/// How many artists the ranking returns at most.
pub const TOP_ARTISTS: usize = 5;

/// Each artist with the number of its tracks, in the order in which the
/// artists were first seen.
pub open spec fn artist_counts(ts: Seq<TrackMetadata>) -> Seq<(Seq<char>, nat)> {
    artist_index(ts).map_values(|g: GroupModel| (g.key, g.members.len()))
}

/// The first position at or after `from` whose count is below `c`, or the length.
pub open spec fn rank_pos(s: Seq<(Seq<char>, nat)>, c: nat, from: int) -> int
    decreases s.len() - from,
{
    if from >= s.len() {
        s.len() as int
    } else if s[from].1 < c {
        from
    } else {
        rank_pos(s, c, from + 1)
    }
}

/// The entries ordered by descending count; entries with equal counts keep
/// their order.
pub open spec fn ranked(s: Seq<(Seq<char>, nat)>) -> Seq<(Seq<char>, nat)>
    decreases s.len(),
{
    if s.len() == 0 {
        s
    } else {
        let r = ranked(s.drop_last());
        r.insert(rank_pos(r, s.last().1, 0), s.last())
    }
}

/// At most the first `n` entries of `s`.
pub open spec fn first_n<A>(s: Seq<A>, n: nat) -> Seq<A> {
    if s.len() <= n {
        s
    } else {
        s.take(n as int)
    }
}

pub open spec fn pairs_view(s: Seq<(String, u64)>) -> Seq<(Seq<char>, nat)> {
    s.map_values(|p: (String, u64)| (p.0@, p.1 as nat))
}

/// The sum of the known durations, in milliseconds.
pub open spec fn total_duration(ts: Seq<TrackMetadata>) -> nat
    decreases ts.len(),
{
    if ts.len() == 0 {
        0
    } else {
        total_duration(ts.drop_last()) + match ts.last().duration {
            Some(d) => d as nat,
            None => 0,
        }
    }
}

/// The decade that a year falls in.
pub open spec fn decade_of(y: u32) -> u32 {
    ((y / 10) * 10) as u32
}

/// Whether a track has a year in decade `d`.
pub open spec fn in_decade(t: TrackMetadata, d: u32) -> bool {
    match t.year {
        Some(y) => decade_of(y) == d,
        None => false,
    }
}

/// How many tracks have a year in decade `d`.
pub open spec fn decade_count(ts: Seq<TrackMetadata>, d: u32) -> nat
    decreases ts.len(),
{
    if ts.len() == 0 {
        0
    } else {
        decade_count(ts.drop_last(), d) + if in_decade(ts.last(), d) { 1nat } else { 0nat }
    }
}

/// `table` maps each decade that some track's year falls in, once, to the
/// number of tracks in that decade, and holds no other decade.
pub open spec fn decade_table(ts: Seq<TrackMetadata>, table: Seq<(u32, u64)>) -> bool {
    &&& forall|i: int| 0 <= i < table.len() ==> #[trigger] table[i].1 as nat == decade_count(ts, table[i].0) && table[i].1 > 0
    &&& forall|i: int, j: int| 0 <= i < j < table.len() ==> #[trigger] table[i].0 != #[trigger] table[j].0
    &&& forall|k: int| 0 <= k < ts.len() && #[trigger] ts[k].year is Some
        ==> exists|i: int| 0 <= i < table.len() && table[i].0 == decade_of(ts[k].year->0)
}

/// The label of a decade: its digits followed by `s`.
pub open spec fn decade_label(d: u32) -> Seq<char> {
    decimal(d as nat).push('s')
}

/// `r` holds the entries of `table` under their labels, in the same order.
pub open spec fn labelled(r: Seq<(String, u64)>, table: Seq<(u32, u64)>) -> bool {
    &&& r.len() == table.len()
    &&& forall|i: int| 0 <= i < r.len() ==> (#[trigger] r[i]).0@ == decade_label(table[i].0) && r[i].1 == table[i].1
}

/// Hours, minutes and seconds of a duration given in whole seconds, as
/// `"{h}h {m}m {s}s"`, or `"{m}m {s}s"` under an hour.
pub open spec fn duration_text(secs: nat) -> Seq<char> {
    let h = secs / 3600;
    let m = (secs % 3600) / 60;
    let s = secs % 60;
    if h > 0 {
        decimal(h) + seq!['h', ' '] + decimal(m) + seq!['m', ' '] + decimal(s) + seq!['s']
    } else {
        decimal(m) + seq!['m', ' '] + decimal(s) + seq!['s']
    }
}

/// The tracks of the last scan, with the groups derived from them.
#[derive(Debug)]
pub struct PlaylistService {
    tracks: Vec<TrackMetadata>,
    genres: Vec<Group>,
    artists: Vec<Group>,
    albums: Vec<Group>,
}

impl View for PlaylistService {
    type V = Seq<TrackMetadata>;

    closed spec fn view(&self) -> Seq<TrackMetadata> {
        self.tracks@
    }
}

impl PlaylistService {
    /// The groups are exactly those that the tracks determine.
    pub closed spec fn wf(&self) -> bool {
        &&& groups_view(self.genres@) == genre_index(self.tracks@)
        &&& groups_view(self.artists@) == artist_index(self.tracks@)
        &&& groups_view(self.albums@) == album_index(self.tracks@)
    }

    proof fn lemma_members_valid(&self)
        requires
            self.wf(),
        ensures
            members_below(groups_view(self.genres@), self.tracks@.len() as int),
            members_below(groups_view(self.artists@), self.tracks@.len() as int),
            members_below(groups_view(self.albums@), self.tracks@.len() as int),
    {
        lemma_genre_groups_members(genre_tags(self.tracks@));
        lemma_exact_groups_members(artist_keys(self.tracks@));
        lemma_exact_groups_members(album_keys(self.tracks@));
    }

    /// An empty index.
    pub fn new() -> (r: Self)
        ensures
            r.wf(),
            r@.len() == 0,
    {
        let r = PlaylistService {
            tracks: Vec::new(),
            genres: Vec::new(),
            artists: Vec::new(),
            albums: Vec::new(),
        };
        assert(groups_view(r.genres@) =~= genre_index(r.tracks@));
        assert(groups_view(r.artists@) =~= artist_index(r.tracks@));
        assert(groups_view(r.albums@) =~= album_index(r.tracks@));
        r
    }

    /// Forgets every track and group.
    fn clear_database(&mut self)
        ensures
            final(self).wf(),
            final(self)@.len() == 0,
    {
        self.tracks.clear();
        self.genres.clear();
        self.artists.clear();
        self.albums.clear();
        assert(groups_view(self.genres@) =~= genre_index(self.tracks@));
        assert(groups_view(self.artists@) =~= artist_index(self.tracks@));
        assert(groups_view(self.albums@) =~= album_index(self.tracks@));
    }

    /// Appends one track and files it under its genre, album and artist.
    fn add_track(&mut self, t: TrackMetadata)
        requires
            old(self).wf(),
        ensures
            final(self).wf(),
            final(self)@ == old(self)@.push(t),
    {
        let i = self.tracks.len();
        match &t.genre {
            Some(g) => file_genre(&mut self.genres, g, i),
            None => {},
        }
        match &t.album {
            Some(a) => file_exact(&mut self.albums, a, i),
            None => {},
        }
        match &t.artist {
            Some(a) => file_exact(&mut self.artists, a, i),
            None => {},
        }
        self.tracks.push(t);
        proof {
            let ts = self.tracks@;
            let prev = old(self).tracks@;
            assert(genre_tags(ts).drop_last() =~= genre_tags(prev));
            assert(artist_keys(ts).drop_last() =~= artist_keys(prev));
            assert(album_keys(ts).drop_last() =~= album_keys(prev));
        }
    }

    /// Replaces the index by the tracks of one directory walk. Each file whose
    /// extension is supported becomes a track, in walk order, also where its
    /// tags could not be read. Where the root could not be opened, the error is
    /// returned and the index is left as it was.
    pub fn scan_directory(&mut self, listing: Result<Vec<ScannedFile>, ScanError>) -> (r: Result<(), ScanError>)
        requires
            old(self).wf(),
        ensures
            final(self).wf(),
            match listing {
                Ok(files) => r is Ok && final(self)@ == scanned_tracks(files@),
                Err(e) => r == Err::<(), ScanError>(e) && final(self)@ == old(self)@,
            },
    {
        match listing {
            Err(e) => Err(e),
            Ok(files) => {
                self.clear_database();
                let ghost all = files@;
                let ghost mut k: int = 0;
                let mut files = files;
                assert(all.take(0) =~= seq![]);
                assert(all.skip(0) =~= all);
                while files.len() > 0
                    invariant
                        self.wf(),
                        0 <= k <= all.len(),
                        files@ == all.skip(k),
                        self@ == scanned_tracks(all.take(k)),
                    decreases files.len(),
                {
                    let f = files.remove(0);
                    proof {
                        assert(all.take(k + 1).drop_last() =~= all.take(k));
                        assert(all.take(k + 1).last() == f);
                        assert(all.skip(k + 1) =~= all.skip(k).remove(0));
                        k = k + 1;
                    }
                    if Self::is_audio_file(f.path.as_str()) {
                        let t = TrackMetadata::from_scan(f);
                        self.add_track(t);
                    }
                }
                assert(all.take(k) =~= all);
                Ok(())
            },
        }
    }

    /// The paths of the tracks in the genre group that the query names, in scan
    /// order; empty where no group lies near it.
    pub fn get_playlist_by_genre(&self, genre: &str) -> (r: Vec<String>)
        requires
            self.wf(),
        ensures
            r@ == genre_playlist(self@, genre@),
    {
        let found = find_genre(&self.genres, genre);
        match found {
            None => Vec::new(),
            Some(j) => {
                proof { self.lemma_members_valid(); }
                let members = &self.genres[j].members;
                let ghost gm = groups_view(self.genres@)[j as int];
                assert(gm.members == members@);
                let mut out: Vec<String> = Vec::new();
                let mut k: usize = 0;
                while k < members.len()
                    invariant
                        self.wf(),
                        members@ == gm.members,
                        members_below(groups_view(self.genres@), self.tracks@.len() as int),
                        j < self.genres@.len(),
                        gm == groups_view(self.genres@)[j as int],
                        k <= members.len(),
                        out@ == members@.take(k as int).map_values(|m: usize| self.tracks@[m as int].path),
                    decreases members.len() - k,
                {
                    let m = members[k];
                    assert(groups_view(self.genres@)[j as int].members[k as int] == m);
                    out.push(self.tracks[m].path.clone());
                    assert(members@.take(k + 1) =~= members@.take(k as int).push(m));
                    assert(out@ =~= members@.take(k + 1).map_values(|m: usize| self.tracks@[m as int].path));
                    k = k + 1;
                }
                assert(members@.take(k as int) =~= members@);
                out
            },
        }
    }

    /// The keys of all genre groups, sorted.
    pub fn get_genres(&self) -> (r: Vec<String>)
        requires
            self.wf(),
        ensures
            r@.map_values(|s: String| s@).to_multiset() == genre_keys(self@).to_multiset(),
            forall|i: int, j: int| 0 <= i < j < r@.len() ==> text_le(#[trigger] r@[i]@, #[trigger] r@[j]@),
    {
        let ghost gv = groups_view(self.genres@);
        let mut keys: Vec<String> = Vec::new();
        let mut k: usize = 0;
        while k < self.genres.len()
            invariant
                gv == groups_view(self.genres@),
                k <= self.genres@.len(),
                keys@.map_values(|s: String| s@) == gv.take(k as int).map_values(|g: GroupModel| g.key),
            decreases self.genres@.len() - k,
        {
            let ghost before = keys@;
            keys.push(self.genres[k].key.clone());
            assert(gv[k as int].key == self.genres@[k as int].key@);
            assert(gv.take(k + 1) =~= gv.take(k as int).push(gv[k as int]));
            assert(keys@ =~= before.push(self.genres@[k as int].key));
            assert(keys@.map_values(|s: String| s@) =~= before.map_values(|s: String| s@).push(self.genres@[k as int].key@));
            assert(gv.take(k + 1).map_values(|g: GroupModel| g.key) =~= gv.take(k as int).map_values(|g: GroupModel| g.key).push(gv[k as int].key));
            assert(keys@.map_values(|s: String| s@) =~= gv.take(k + 1).map_values(|g: GroupModel| g.key));
            k = k + 1;
        }
        assert(gv.take(k as int) =~= gv);
        sort_texts(&mut keys);
        keys
    }

    /// The first track whose path is `path`, if any.
    pub fn get_track_info(&self, path: &str) -> (r: Option<&TrackMetadata>)
        ensures
            match r {
                Some(t) => track_position(self@, path@) >= 0 && *t == self@[track_position(self@, path@)],
                None => track_position(self@, path@) == -1,
            },
    {
        let mut k: usize = 0;
        while k < self.tracks.len()
            invariant
                k <= self.tracks@.len(),
                track_position(self.tracks@.take(k as int), path@) == -1,
            decreases self.tracks@.len() - k,
        {
            assert(self.tracks@.take(k + 1).drop_last() =~= self.tracks@.take(k as int));
            if string_eq_str(&self.tracks[k].path, path) {
                proof { lemma_track_position_prefix(self.tracks@, path@, k + 1); }
                return Some(&self.tracks[k]);
            }
            k = k + 1;
        }
        assert(self.tracks@.take(k as int) =~= self.tracks@);
        None
    }

    /// The artists with the most tracks, at most five, by descending count;
    /// artists with equal counts stay in the order in which they were first seen.
    pub fn get_top_artists(&self) -> (r: Vec<(String, u64)>)
        requires
            self.wf(),
        ensures
            pairs_view(r@) == first_n(ranked(artist_counts(self@)), TOP_ARTISTS as nat),
    {
        let ghost gv = groups_view(self.artists@);
        let ghost counts = artist_counts(self@);
        assert(counts == gv.map_values(|g: GroupModel| (g.key, g.members.len())));
        let mut out: Vec<(String, u64)> = Vec::new();
        let mut i: usize = 0;
        assert(counts.take(0) =~= seq![]);
        while i < self.artists.len()
            invariant
                gv == groups_view(self.artists@),
                counts == gv.map_values(|g: GroupModel| (g.key, g.members.len())),
                i <= self.artists@.len(),
                pairs_view(out@) == ranked(counts.take(i as int)),
            decreases self.artists@.len() - i,
        {
            let c = self.artists[i].members.len() as u64;
            assert(c as nat == counts[i as int].1);
            let ghost sorted = pairs_view(out@);
            let mut k: usize = 0;
            proof { lemma_rank_pos_bounds(sorted, c as nat, 0); }
            while k < out.len() && out[k].1 >= c
                invariant
                    sorted == pairs_view(out@),
                    k <= out@.len(),
                    rank_pos(sorted, c as nat, 0) == rank_pos(sorted, c as nat, k as int),
                decreases out@.len() - k,
            {
                k = k + 1;
            }
            let entry = (self.artists[i].key.clone(), c);
            out.insert(k, entry);
            proof {
                assert(counts.take(i + 1).drop_last() =~= counts.take(i as int));
                assert(counts.take(i + 1).last() == counts[i as int]);
                assert(pairs_view(out@) =~= sorted.insert(k as int, (entry.0@, c as nat)));
            }
            i = i + 1;
        }
        assert(counts.take(i as int) =~= counts);
        proof { lemma_ranked_len(counts); }
        let ghost full = out@;
        out.truncate(TOP_ARTISTS);
        assert(pairs_view(out@) =~= first_n(pairs_view(full), TOP_ARTISTS as nat));
        out
    }

    /// Track, genre and album totals, and the sum of the known durations.
    pub fn get_stats(&self) -> (r: PlaylistStats)
        requires
            self.wf(),
        ensures
            r.total_tracks == self@.len(),
            r.total_genres == genre_index(self@).len(),
            r.total_albums == album_index(self@).len(),
            r.total_duration == total_duration(self@),
    {
        let mut sum: u128 = 0;
        let mut k: usize = 0;
        assert(self.tracks@.take(0) =~= seq![]);
        while k < self.tracks.len()
            invariant
                k <= self.tracks@.len(),
                sum == total_duration(self.tracks@.take(k as int)),
                sum <= k * 0xffff_ffff_ffff_ffffnat,
            decreases self.tracks@.len() - k,
        {
            assert(self.tracks@.take(k + 1).drop_last() =~= self.tracks@.take(k as int));
            let d: u64 = match self.tracks[k].duration {
                Some(d) => d,
                None => 0,
            };
            assert(k + 1 <= 0x1_0000_0000_0000_0000nat);
            assert((k + 1) * 0xffff_ffff_ffff_ffffnat <= 0xffff_ffff_ffff_ffff_ffff_ffff_ffff_ffffnat) by (nonlinear_arith)
                requires k + 1 <= 0x1_0000_0000_0000_0000nat;
            sum = sum + d as u128;
            k = k + 1;
        }
        assert(self.tracks@.take(k as int) =~= self.tracks@);
        PlaylistStats {
            total_tracks: self.tracks.len(),
            total_genres: self.genres.len(),
            total_albums: self.albums.len(),
            total_duration: sum,
        }
    }

    /// Each decade that some track's year falls in, once, with the number of
    /// those tracks, in the order in which the decades were first met.
    fn decade_counts(&self) -> (r: Vec<(u32, u64)>)
        ensures
            decade_table(self@, r@),
    {
        let ts = &self.tracks;
        let mut table: Vec<(u32, u64)> = Vec::new();
        let mut k: usize = 0;
        assert(ts@.take(0) =~= seq![]);
        while k < ts.len()
            invariant
                k <= ts@.len(),
                decade_table(ts@.take(k as int), table@),
            decreases ts@.len() - k,
        {
            let ghost prev = ts@.take(k as int);
            let ghost next = ts@.take(k + 1);
            assert(next.drop_last() =~= prev);
            assert(next.last() == ts@[k as int]);
            assert forall|j: int| 0 <= j < prev.len() implies next[j] == #[trigger] prev[j] by {}
            let ghost old_table = table@;
            match ts[k].year {
                None => {
                    assert forall|e: u32| decade_count(next, e) == decade_count(prev, e) by {}
                },
                Some(y) => {
                    let d: u32 = (y / 10) * 10;
                    assert(d == decade_of(y));
                    let mut i: usize = 0;
                    while i < table.len() && table[i].0 != d
                        invariant
                            i <= table@.len(),
                            forall|j: int| 0 <= j < i ==> table@[j].0 != d,
                        decreases table@.len() - i,
                    {
                        i = i + 1;
                    }
                    assert forall|e: u32| e != d implies decade_count(next, e) == decade_count(prev, e) by {}
                    assert(decade_count(next, d) == decade_count(prev, d) + 1);
                    if i < table.len() {
                        proof { lemma_decade_count_bound(prev, d); }
                        let (dd, c) = table[i];
                        assert(c as nat == decade_count(prev, d));
                        table[i] = (dd, c + 1);
                        assert(table@[i as int].0 == d);
                    } else {
                        proof {
                            assert forall|j: int| 0 <= j < prev.len() implies !in_decade(#[trigger] prev[j], d) by {
                                if in_decade(prev[j], d) {
                                    assert(prev[j].year is Some);
                                    let w = choose|w: int| 0 <= w < old_table.len() && old_table[w].0 == decade_of(prev[j].year->0);
                                    assert(old_table[w].0 == d);
                                }
                            }
                            lemma_decade_count_zero(prev, d);
                        }
                        table.push((d, 1));
                        assert(table@[old_table.len() as int].0 == d);
                    }
                },
            }
            proof {
                assert(table@.len() >= old_table.len());
                assert forall|j: int| 0 <= j < next.len() && #[trigger] next[j].year is Some
                    implies exists|w: int| 0 <= w < table@.len() && table@[w].0 == decade_of(next[j].year->0) by {
                    if j < prev.len() {
                        assert(prev[j].year is Some);
                        let w = choose|w: int| 0 <= w < old_table.len() && old_table[w].0 == decade_of(prev[j].year->0);
                        assert(table@[w].0 == old_table[w].0);
                    }
                }
            }
            k = k + 1;
        }
        assert(ts@.take(k as int) =~= ts@);
        table
    }

    /// The number of tracks in each decade, under labels such as `"1990s"`;
    /// tracks without a year count nowhere.
    pub fn get_tracks_by_decade(&self) -> (r: Vec<(String, u64)>)
        ensures
            exists|table: Seq<(u32, u64)>| decade_table(self@, table) && labelled(r@, table),
    {
        let table = self.decade_counts();
        let mut out: Vec<(String, u64)> = Vec::new();
        let mut i: usize = 0;
        while i < table.len()
            invariant
                i <= table@.len(),
                labelled(out@, table@.take(i as int)),
            decreases table@.len() - i,
        {
            let (d, c) = table[i];
            let mut label = decimal_string(d as u128);
            push_char(&mut label, 's');
            out.push((label, c));
            i = i + 1;
        }
        assert(table@.take(i as int) =~= table@);
        assert(decade_table(self@, table@) && labelled(out@, table@));
        out
    }

    /// Whether a path names a file that the index takes in, going by its
    /// extension in any case: mp3, flac, ogg, wav, m4a, aac or wma.
    pub fn is_audio_file(path: &str) -> (r: bool)
        ensures
            r == is_audio_path(path@),
    {
        let n = path.unicode_len();
        let sep = last_position(path, n, '/', '\\');
        let name = path.substring_char(sep, n);
        assert(name@ == file_name(path@));
        let name_len = n - sep;
        let dot = last_position(name, name_len, '.', '.');
        if dot <= 1 {
            return false;
        }
        let ext = name.substring_char(dot, name_len);
        assert(ext@ == name@.skip(dot as int));
        let lower = lowercase(ext);
        let found = string_eq_str(&lower, "mp3") || string_eq_str(&lower, "flac")
            || string_eq_str(&lower, "ogg") || string_eq_str(&lower, "wav")
            || string_eq_str(&lower, "m4a") || string_eq_str(&lower, "aac")
            || string_eq_str(&lower, "wma");
        proof {
            reveal_strlit("mp3");
            reveal_strlit("flac");
            reveal_strlit("ogg");
            reveal_strlit("wav");
            reveal_strlit("m4a");
            reveal_strlit("aac");
            reveal_strlit("wma");
            assert("mp3"@ =~= seq!['m', 'p', '3']);
            assert("flac"@ =~= seq!['f', 'l', 'a', 'c']);
            assert("ogg"@ =~= seq!['o', 'g', 'g']);
            assert("wav"@ =~= seq!['w', 'a', 'v']);
            assert("m4a"@ =~= seq!['m', '4', 'a']);
            assert("aac"@ =~= seq!['a', 'a', 'c']);
            assert("wma"@ =~= seq!['w', 'm', 'a']);
        }
        found
    }
}

proof fn lemma_last_of_range(s: Seq<char>, a: char, b: char)
    ensures
        -1 <= last_of(s, a, b) < s.len(),
    decreases s.len(),
{
    if s.len() > 0 {
        lemma_last_of_range(s.drop_last(), a, b);
    }
}

/// One past the position of the last character of `s` equal to `a` or `b`, or 0.
fn last_position(s: &str, n: usize, a: char, b: char) -> (r: usize)
    requires
        n == s@.len(),
    ensures
        r == last_of(s@, a, b) + 1,
        r <= n,
{
    proof { lemma_last_of_range(s@, a, b); }
    assert(s@.take(n as int) =~= s@);
    let mut k: usize = n;
    while k > 0
        invariant
            n == s@.len(),
            k <= n,
            last_of(s@, a, b) == last_of(s@.take(k as int), a, b),
        decreases k,
    {
        let c = s.get_char(k - 1);
        assert(s@.take(k as int).last() == c);
        if c == a || c == b {
            return k;
        }
        assert(s@.take(k as int).drop_last() == s@.take(k - 1));
        k = k - 1;
    }
    k
}

proof fn lemma_track_position_prefix(ts: Seq<TrackMetadata>, p: Seq<char>, n: int)
    requires
        0 <= n <= ts.len(),
        track_position(ts.take(n), p) >= 0,
    ensures
        track_position(ts, p) == track_position(ts.take(n), p),
    decreases ts.len() - n,
{
    if n < ts.len() {
        assert(ts.take(n + 1).drop_last() =~= ts.take(n));
        lemma_track_position_prefix(ts, p, n + 1);
    } else {
        assert(ts.take(n) =~= ts);
    }
}

/// The value of a tag field where it is non-empty.
fn present_only(o: Option<String>) -> (r: Option<String>)
    ensures
        r == present(o),
{
    match o {
        Some(s) => {
            if s.as_str().unicode_len() > 0 {
                Some(s)
            } else {
                None
            }
        },
        None => None,
    }
}

impl TrackMetadata {
    /// The track that a scanned file becomes: tag fields count only where
    /// present and non-empty, and unreadable tags leave every field empty.
    pub fn from_scan(file: ScannedFile) -> (r: TrackMetadata)
        ensures
            r == track_of(file),
    {
        let ScannedFile { path, tags } = file;
        match tags {
            Ok(t) => TrackMetadata {
                path,
                album: present_only(t.album),
                artist: present_only(t.artist),
                genre: present_only(t.genre),
                year: t.year,
                duration: t.duration,
            },
            Err(_) => TrackMetadata {
                path,
                album: None,
                artist: None,
                genre: None,
                year: None,
                duration: None,
            },
        }
    }
}

proof fn lemma_decade_count_bound(ts: Seq<TrackMetadata>, d: u32)
    ensures
        decade_count(ts, d) <= ts.len(),
    decreases ts.len(),
{
    if ts.len() > 0 {
        lemma_decade_count_bound(ts.drop_last(), d);
    }
}

proof fn lemma_decade_count_zero(ts: Seq<TrackMetadata>, d: u32)
    requires
        forall|j: int| 0 <= j < ts.len() ==> !in_decade(#[trigger] ts[j], d),
    ensures
        decade_count(ts, d) == 0,
    decreases ts.len(),
{
    if ts.len() > 0 {
        assert(!in_decade(ts[ts.len() - 1], d));
        assert forall|j: int| 0 <= j < ts.len() - 1 implies !in_decade(#[trigger] ts.drop_last()[j], d) by {
            assert(ts.drop_last()[j] == ts[j]);
        }
        lemma_decade_count_zero(ts.drop_last(), d);
    }
}

proof fn lemma_rank_pos_bounds(s: Seq<(Seq<char>, nat)>, c: nat, from: int)
    requires
        0 <= from <= s.len(),
    ensures
        from <= rank_pos(s, c, from) <= s.len(),
    decreases s.len() - from,
{
    if from < s.len() && s[from].1 >= c {
        lemma_rank_pos_bounds(s, c, from + 1);
    }
}

proof fn lemma_ranked_len(s: Seq<(Seq<char>, nat)>)
    ensures
        ranked(s).len() == s.len(),
    decreases s.len(),
{
    if s.len() > 0 {
        lemma_ranked_len(s.drop_last());
        lemma_rank_pos_bounds(ranked(s.drop_last()), s.last().1, 0);
    }
}

/// Totals over the index; `total_duration` is in milliseconds.
#[derive(Clone, Copy, Debug)]
pub struct PlaylistStats {
    pub total_tracks: usize,
    pub total_genres: usize,
    pub total_albums: usize,
    pub total_duration: u128,
}

impl PlaylistStats {
    /// The total duration in whole seconds, as hours, minutes and seconds.
    pub fn format_duration(&self) -> (r: String)
        ensures
            r@ == duration_text(self.total_duration as nat / 1000),
    {
        let total_seconds = self.total_duration / 1000;
        let hours = total_seconds / 3600;
        let minutes = (total_seconds % 3600) / 60;
        let seconds = total_seconds % 60;
        let mut out = String::new();
        if hours > 0 {
            let h = decimal_string(hours);
            push_text(&mut out, h.as_str());
            push_char(&mut out, 'h');
            push_char(&mut out, ' ');
        }
        let m = decimal_string(minutes);
        push_text(&mut out, m.as_str());
        push_char(&mut out, 'm');
        push_char(&mut out, ' ');
        let s = decimal_string(seconds);
        push_text(&mut out, s.as_str());
        push_char(&mut out, 's');
        proof {
            let secs = self.total_duration as nat / 1000;
            if hours > 0 {
                assert(out@ =~= decimal(secs / 3600) + seq!['h', ' '] + decimal((secs % 3600) / 60) + seq!['m', ' '] + decimal(secs % 60) + seq!['s']);
            } else {
                assert(out@ =~= decimal((secs % 3600) / 60) + seq!['m', ' '] + decimal(secs % 60) + seq!['s']);
            }
        }
        out
    }
}

proof fn lemma_rank_pos_facts(s: Seq<(Seq<char>, nat)>, c: nat, from: int)
    requires
        0 <= from <= s.len(),
    ensures
        forall|k: int| from <= k < rank_pos(s, c, from) ==> #[trigger] s[k].1 >= c,
        rank_pos(s, c, from) < s.len() ==> s[rank_pos(s, c, from)].1 < c,
    decreases s.len() - from,
{
    if from < s.len() && s[from].1 >= c {
        lemma_rank_pos_facts(s, c, from + 1);
    }
}

/// Entries ordered by descending count.
pub open spec fn descending(s: Seq<(Seq<char>, nat)>) -> bool {
    forall|i: int, j: int| 0 <= i < j < s.len() ==> #[trigger] s[i].1 >= #[trigger] s[j].1
}

proof fn lemma_ranked_descending(s: Seq<(Seq<char>, nat)>)
    ensures
        descending(ranked(s)),
    decreases s.len(),
{
    if s.len() > 0 {
        let r = ranked(s.drop_last());
        let c = s.last().1;
        lemma_ranked_descending(s.drop_last());
        lemma_rank_pos_bounds(r, c, 0);
        lemma_rank_pos_facts(r, c, 0);
        let p = rank_pos(r, c, 0);
        let q = r.insert(p, s.last());
        assert forall|i: int, j: int| 0 <= i < j < q.len() implies #[trigger] q[i].1 >= #[trigger] q[j].1 by {
            if j < p {
                assert(q[i] == r[i] && q[j] == r[j]);
            } else if j == p {
                assert(q[i] == r[i]);
            } else if i < p {
                assert(q[i] == r[i] && q[j] == r[j - 1]);
                assert(r[i].1 >= c);
                assert(r[p].1 < c);
                assert(r[p].1 >= r[j - 1].1);
            } else if i == p {
                assert(q[j] == r[j - 1]);
                assert(r[p].1 < c);
                if j - 1 > p {
                    assert(r[p].1 >= r[j - 1].1);
                }
            } else {
                assert(q[i] == r[i - 1] && q[j] == r[j - 1]);
            }
        }
    }
}

/// The artist ranking holds at most five entries, by descending count.
pub proof fn law_top_artists_bounded_and_descending(ts: Seq<TrackMetadata>)
    ensures
        first_n(ranked(artist_counts(ts)), TOP_ARTISTS as nat).len() <= TOP_ARTISTS,
        descending(first_n(ranked(artist_counts(ts)), TOP_ARTISTS as nat)),
{
    let r = ranked(artist_counts(ts));
    lemma_ranked_descending(artist_counts(ts));
    let f = first_n(r, TOP_ARTISTS as nat);
    assert forall|i: int, j: int| 0 <= i < j < f.len() implies #[trigger] f[i].1 >= #[trigger] f[j].1 by {
        assert(f[i] == r[i] && f[j] == r[j]);
    }
}

/// A library in which no track has a known duration totals zero.
pub proof fn law_no_durations_total_zero(ts: Seq<TrackMetadata>)
    requires
        forall|i: int| 0 <= i < ts.len() ==> (#[trigger] ts[i]).duration is None,
    ensures
        total_duration(ts) == 0,
    decreases ts.len(),
{
    if ts.len() > 0 {
        assert(ts[ts.len() - 1].duration is None);
        assert forall|i: int| 0 <= i < ts.len() - 1 implies (#[trigger] ts.drop_last()[i]).duration is None by {
            assert(ts.drop_last()[i] == ts[i]);
        }
        law_no_durations_total_zero(ts.drop_last());
    }
}

} // verus!
