//! What the Docker collector derives from the daemon's answers: display names,
//! image repository and tag, creation and start times, and the uptime timeline.

use vstd::prelude::*;

use crate::civil::{parse_rfc3339_to_unix, spec_parse_rfc3339_to_unix};
use crate::metrics::{DockerSample, HealthStatus};
use crate::text::{
    chars_to_string, decimal, find_first, find_last, lemma_first_at, lemma_first_none, push_decimal,
    push_str, sub_chars, to_chars,
};

verus! {

/// The last path segment of an image repository (`docker.io/library/nginx` gives
/// `nginx`): what follows the last `/`, or the whole repository when it has none.
pub open spec fn spec_repo_basename(repo: Seq<char>) -> Seq<char> {
    match repo.index_of_last('/') {
        Some(i) => repo.subrange(i + 1, repo.len() as int),
        None => repo,
    }
}

/// The last `:` of `image` separates a tag: it comes after the last `/`, so it
/// is not the port of a registry (`localhost:5000/app` has no tag).
pub open spec fn tag_separator(image: Seq<char>) -> Option<int> {
    match image.index_of_last(':') {
        Some(j) => match image.index_of_last('/') {
            Some(k) => if j > k {
                Some(j)
            } else {
                None
            },
            None => Some(j),
        },
        None => None,
    }
}

/// Repository basename and tag of an image reference. A digest reference
/// (`repo@sha256:...`) has no tag; otherwise the tag is what follows a `:` that
/// comes after the last `/`, and an image without one is untagged.
pub open spec fn spec_split_image(image: Seq<char>) -> (Seq<char>, Seq<char>) {
    match image.index_of_first('@') {
        Some(i) => (spec_repo_basename(image.subrange(0, i)), Seq::empty()),
        None => match tag_separator(image) {
            Some(j) => (
                spec_repo_basename(image.subrange(0, j)),
                image.subrange(j + 1, image.len() as int),
            ),
            None => (spec_repo_basename(image), Seq::empty()),
        },
    }
}

/// A tag never holds a `/`: a `:` that belongs to a registry address (before
/// the last `/`) does not start one.
pub proof fn lemma_tag_has_no_slash(image: Seq<char>)
    ensures
        !spec_split_image(image).1.contains('/'),
{
    image.index_of_last_ensures(':');
    image.index_of_last_ensures('/');
    let t = spec_split_image(image).1;
    if t.contains('/') {
        let k = choose|k: int| 0 <= k < t.len() && t[k] == '/';
        match image.index_of_first('@') {
            Some(i) => {},
            None => {
                let j = tag_separator(image)->0;
                assert(image[j + 1 + k] == '/');
            },
        }
    }
}

/// The basename is the last segment of the repository: it holds no `/`, it
/// ends the repository, and it is either the whole repository or preceded by
/// a `/`.
pub proof fn lemma_repo_basename_is_last_segment(repo: Seq<char>)
    ensures
        !spec_repo_basename(repo).contains('/'),
        spec_repo_basename(repo).len() <= repo.len(),
        repo.subrange(repo.len() - spec_repo_basename(repo).len(), repo.len() as int)
            == spec_repo_basename(repo),
        spec_repo_basename(repo).len() < repo.len() ==> repo[repo.len() - spec_repo_basename(
            repo,
        ).len() - 1] == '/',
{
    repo.index_of_last_ensures('/');
    let b = spec_repo_basename(repo);
    match repo.index_of_last('/') {
        Some(i) => {
            assert(b =~= repo.subrange(i + 1, repo.len() as int));
            if b.contains('/') {
                let k = choose|k: int| 0 <= k < b.len() && b[k] == '/';
                assert(repo[i + 1 + k] == '/');
            }
        },
        None => {
            assert(repo.subrange(0, repo.len() as int) =~= repo);
        },
    }
}

/// `c` last occurs at `i` when `s[i]` is `c` and no later character is.
proof fn lemma_last_at(s: Seq<char>, c: char, i: int)
    requires
        0 <= i < s.len(),
        s[i] == c,
        forall|j: int| i < j < s.len() ==> s[j] != c,
    ensures
        s.index_of_last(c) == Some(i),
{
    s.index_of_last_ensures(c);
    assert(s.contains(c));
    let k = s.index_of_last(c)->0;
    if k > i {
        assert(s[k] == c);
    }
}

/// An image `repo:tag`, where the tag holds no `:`, `/` or `@` and the
/// repository no `@`, splits into the repository's basename and the tag.
pub proof fn lemma_tagged_image_splits(repo: Seq<char>, tag: Seq<char>)
    requires
        !repo.contains('@'),
        !tag.contains(':'),
        !tag.contains('/'),
        !tag.contains('@'),
    ensures
        spec_split_image(repo + seq![':'] + tag) == (spec_repo_basename(repo), tag),
{
    let image = repo + seq![':'] + tag;
    let n = repo.len() as int;
    assert forall|j: int| 0 <= j < image.len() implies image[j] != '@' by {
        if j < n {
            assert(image[j] == repo[j]);
            if repo[j] == '@' {
                assert(repo.contains('@'));
            }
        } else if j > n {
            assert(image[j] == tag[j - n - 1]);
            if tag[j - n - 1] == '@' {
                assert(tag.contains('@'));
            }
        }
    }
    lemma_first_none(image, '@');
    assert forall|j: int| n < j < image.len() implies image[j] != ':' && image[j] != '/' by {
        assert(image[j] == tag[j - n - 1]);
        if tag[j - n - 1] == ':' {
            assert(tag.contains(':'));
        }
        if tag[j - n - 1] == '/' {
            assert(tag.contains('/'));
        }
    }
    lemma_last_at(image, ':', n);
    image.index_of_last_ensures('/');
    match image.index_of_last('/') {
        Some(k) => {
            assert(image[n] == ':');
        },
        None => {},
    }
    assert(image.subrange(0, n) =~= repo);
    assert(image.subrange(n + 1, image.len() as int) =~= tag);
}

/// An image without `@` in which every `:` is followed, somewhere later, by a
/// `/` (a registry port such as `localhost:5000/app`) has no tag: it splits
/// into its basename and the empty tag.
pub proof fn lemma_untagged_image_splits(image: Seq<char>)
    requires
        !image.contains('@'),
        forall|j: int|
            0 <= j < image.len() && #[trigger] image[j] == ':' ==> exists|k: int|
                j < k < image.len() && image[k] == '/',
    ensures
        spec_split_image(image) == (spec_repo_basename(image), Seq::<char>::empty()),
{
    assert forall|j: int| 0 <= j < image.len() implies image[j] != '@' by {
        if image[j] == '@' {
            assert(image.contains('@'));
        }
    }
    lemma_first_none(image, '@');
    image.index_of_last_ensures(':');
    image.index_of_last_ensures('/');
    match image.index_of_last(':') {
        Some(j) => {
            assert(image[j] == ':');
            let k = choose|k: int| j < k < image.len() && image[k] == '/';
            assert(image.contains('/'));
            let l = image.index_of_last('/')->0;
            if l < k {
                assert(image[k] == '/');
            }
        },
        None => {},
    }
}

/// A digest reference `repo@digest`, the repository without `@`, has no tag:
/// it splits into the repository's basename and the empty tag.
pub proof fn lemma_digest_image_splits(repo: Seq<char>, digest: Seq<char>)
    requires
        !repo.contains('@'),
    ensures
        spec_split_image(repo + seq!['@'] + digest) == (spec_repo_basename(repo), Seq::<char>::empty()),
{
    let image = repo + seq!['@'] + digest;
    let n = repo.len() as int;
    assert forall|j: int| 0 <= j < n implies image[j] != '@' by {
        assert(image[j] == repo[j]);
        if repo[j] == '@' {
            assert(repo.contains('@'));
        }
    }
    lemma_first_at(image, '@', n);
    assert(image.subrange(0, n) =~= repo);
}

fn basename_of(v: &Vec<char>) -> (r: String)
    ensures
        r@ == spec_repo_basename(v@),
{
    match find_last(v, '/') {
        Some(i) => {
            let tail = sub_chars(v, i + 1, v.len());
            chars_to_string(&tail)
        },
        None => chars_to_string(v),
    }
}

/// The last path segment of an image repository.
pub fn repo_basename(repo: &str) -> (r: String)
    ensures
        r@ == spec_repo_basename(repo@),
{
    let v = to_chars(repo);
    basename_of(&v)
}

/// Splits an image reference into (repository basename, tag).
pub fn split_image(image: &str) -> (r: (String, String))
    ensures
        (r.0@, r.1@) == spec_split_image(image@),
{
    let v = to_chars(image);
    match find_first(&v, '@') {
        Some(i) => {
            let repo = sub_chars(&v, 0, i);
            (basename_of(&repo), String::new())
        },
        None => {
            let sep = match find_last(&v, ':') {
                Some(j) => match find_last(&v, '/') {
                    Some(k) => if j > k {
                        Some(j)
                    } else {
                        None
                    },
                    None => Some(j),
                },
                None => None,
            };
            match sep {
                Some(j) => {
                    let repo = sub_chars(&v, 0, j);
                    let tag = sub_chars(&v, j + 1, v.len());
                    (basename_of(&repo), chars_to_string(&tag))
                },
                None => (basename_of(&v), String::new()),
            }
        },
    }
}

/// Human relative age of something `diff` seconds old: seconds under a minute,
/// then minutes under an hour, hours under a day, days beyond (`9h ago`).
pub open spec fn spec_humanize(diff: nat) -> Seq<char> {
    if diff < 60 {
        decimal(diff) + "s ago"@
    } else if diff < 3600 {
        decimal(diff / 60) + "m ago"@
    } else if diff < 86400 {
        decimal(diff / 3600) + "h ago"@
    } else {
        decimal(diff / 86400) + "d ago"@
    }
}

/// Seconds elapsed from `then` to `now`, zero when `then` lies in the future.
pub open spec fn elapsed(now: int, then: int) -> nat {
    if now - then > 0 {
        (now - then) as nat
    } else {
        0
    }
}

/// How long ago `created_at` (Unix seconds) was, seen at `now`.
pub fn humanize_ago(now: i64, created_at: i64) -> (r: String)
    requires
        i64::MIN <= now - created_at <= i64::MAX,
    ensures
        r@ == spec_humanize(elapsed(now as int, created_at as int)),
{
    let d = now - created_at;
    let diff: u64 = if d > 0 { d as u64 } else { 0 };
    let mut r = String::new();
    if diff < 60 {
        push_decimal(&mut r, diff);
        push_str(&mut r, "s ago");
    } else if diff < 3600 {
        push_decimal(&mut r, diff / 60);
        push_str(&mut r, "m ago");
    } else if diff < 86400 {
        push_decimal(&mut r, diff / 3600);
        push_str(&mut r, "h ago");
    } else {
        push_decimal(&mut r, diff / 86400);
        push_str(&mut r, "d ago");
    }
    r
}

/// The age shows a whole number of the largest unit that fits, rounded down:
/// seconds under a minute, then minutes under an hour, hours under a day,
/// days beyond; the number written, taken that many times, is at most the age
/// and falls short of it by less than one unit.
pub proof fn lemma_humanize_shows_whole_units(diff: nat)
    ensures
        diff < 60 ==> spec_humanize(diff) == decimal(diff) + "s ago"@,
        60 <= diff < 3600 ==> exists|q: nat|
            spec_humanize(diff) == #[trigger] decimal(q) + "m ago"@ && q * 60 <= diff < q * 60 + 60,
        3600 <= diff < 86400 ==> exists|q: nat|
            spec_humanize(diff) == #[trigger] decimal(q) + "h ago"@ && q * 3600 <= diff < q * 3600
                + 3600,
        86400 <= diff ==> exists|q: nat|
            spec_humanize(diff) == #[trigger] decimal(q) + "d ago"@ && q * 86400 <= diff < q * 86400
                + 86400,
{
    if 60 <= diff < 3600 {
        let q = diff / 60;
        assert(spec_humanize(diff) == decimal(q) + "m ago"@);
    } else if 3600 <= diff < 86400 {
        let q = diff / 3600;
        assert(spec_humanize(diff) == decimal(q) + "h ago"@);
    } else if 86400 <= diff {
        let q = diff / 86400;
        assert(spec_humanize(diff) == decimal(q) + "d ago"@);
    }
}

/// What the dashboard shows for a container's last start: its age when the
/// daemon reported a start time after the epoch, `—` otherwise (no answer from
/// the daemon, no start time, or one that does not parse).
pub open spec fn spec_started_ago(now: int, started_at: Option<Seq<char>>) -> Seq<char> {
    match started_at {
        Some(s) => match spec_parse_rfc3339_to_unix(s) {
            Some(ts) => if ts > 0 {
                spec_humanize(elapsed(now, ts))
            } else {
                "—"@
            },
            None => "—"@,
        },
        None => "—"@,
    }
}

/// The start-time label of a container: `started_at` is the daemon's
/// `State.StartedAt` (empty when absent), `None` when inspecting failed.
pub fn started_ago_label(now: i64, started_at: Option<&str>) -> (r: String)
    requires
        now >= 0,
    ensures
        r@ == spec_started_ago(now as int, match started_at {
            Some(s) => Some(s@),
            None => None,
        }),
{
    match started_at {
        Some(s) => match parse_rfc3339_to_unix(s) {
            Some(ts) => if ts > 0 {
                humanize_ago(now, ts)
            } else {
                String::from_str("—")
            },
            None => String::from_str("—"),
        },
        None => String::from_str("—"),
    }
}

/// Number of buckets of the uptime timeline.
pub const TIMELINE_BUCKETS: usize = 48;

/// Hours that the uptime timeline covers.
pub const TIMELINE_WINDOW_HOURS: i64 = 24;

/// Seconds that the uptime timeline covers.
pub const TIMELINE_WINDOW_SECS: i64 = TIMELINE_WINDOW_HOURS * 3600;

/// Seconds covered by one bucket of the timeline.
pub const TIMELINE_BUCKET_SECS: i64 = 1800;

/// State of one bucket of the uptime timeline.
#[derive(Debug, Clone, Copy, PartialEq, Eq)]
pub enum TimelineBar {
    /// The container did not exist yet.
    NotCreated,
    /// At least one sample was recorded in the bucket.
    Up,
    /// No sample in the bucket: presumed down.
    Down,
    /// The current bucket, container running.
    LiveUp,
    /// The current bucket, container stopped.
    LiveDown,
}

impl TimelineBar {
    /// The CSS class that draws the bar.
    pub open spec fn class_of(self) -> &'static str {
        match self {
            TimelineBar::NotCreated => "bar-na",
            TimelineBar::Up => "bar-up",
            TimelineBar::Down => "bar-down",
            TimelineBar::LiveUp => "bar-up bar-live",
            TimelineBar::LiveDown => "bar-down bar-live",
        }
    }

    /// The CSS class that draws the bar.
    pub fn css_class(&self) -> (r: &'static str)
        ensures
            r == self.class_of(),
    {
        match self {
            TimelineBar::NotCreated => "bar-na",
            TimelineBar::Up => "bar-up",
            TimelineBar::Down => "bar-down",
            TimelineBar::LiveUp => "bar-up bar-live",
            TimelineBar::LiveDown => "bar-down bar-live",
        }
    }
}

/// Start (Unix seconds) of bucket `i` of the window that ends at `now`.
pub open spec fn bucket_start(now: int, i: int) -> int {
    now - 86400 + i * 1800
}

/// Some timestamp lies in `[start, start + 1800)`.
pub open spec fn has_sample(timestamps: Seq<i64>, start: int) -> bool {
    exists|k: int| 0 <= k < timestamps.len() && start <= #[trigger] timestamps[k] < start + 1800
}

/// The timeline of a container over the 24 hours before `now`, oldest bucket
/// first, in 48 buckets of 30 minutes: a bucket that ends at or before the
/// container's creation is `NotCreated`, one holding a recorded sample `Up`,
/// any other `Down`; the last bucket shows the current status.
pub open spec fn spec_timeline(timestamps: Seq<i64>, now: int, created_at: int, is_running: bool) -> Seq<TimelineBar> {
    Seq::new(
        48,
        |i: int|
            if i == 47 {
                if is_running {
                    TimelineBar::LiveUp
                } else {
                    TimelineBar::LiveDown
                }
            } else if bucket_start(now, i) + 1800 <= created_at {
                TimelineBar::NotCreated
            } else if has_sample(timestamps, bucket_start(now, i)) {
                TimelineBar::Up
            } else {
                TimelineBar::Down
            },
    )
}

fn any_in_range(timestamps: &Vec<i64>, start: i64, end: i64) -> (r: bool)
    requires
        end == start + 1800,
    ensures
        r == has_sample(timestamps@, start as int),
{
    let mut k: usize = 0;
    while k < timestamps.len()
        invariant
            k <= timestamps@.len(),
            end == start + 1800,
            forall|j: int| 0 <= j < k ==> !(start <= #[trigger] timestamps@[j] < end),
        decreases timestamps@.len() - k,
    {
        let t = timestamps[k];
        if t >= start && t < end {
            return true;
        }
        k = k + 1;
    }
    false
}

/// The bars of the uptime timeline (see `spec_timeline`); `timestamps` are the
/// Unix seconds of the samples recorded for the container.
pub fn timeline_bars(timestamps: &Vec<i64>, now: i64, created_at: i64, is_running: bool) -> (r: Vec<TimelineBar>)
    requires
        now >= i64::MIN + TIMELINE_WINDOW_SECS,
    ensures
        r@ == spec_timeline(timestamps@, now as int, created_at as int, is_running),
{
    let window_start = now - TIMELINE_WINDOW_SECS;
    let bucket_width = TIMELINE_BUCKET_SECS;
    let mut r: Vec<TimelineBar> = Vec::new();
    let mut i: usize = 0;
    while i < TIMELINE_BUCKETS
        invariant
            i <= 48,
            window_start == now - 86400,
            bucket_width == 1800,
            now >= i64::MIN + 86400,
            r@.len() == i,
            forall|j: int|
                0 <= j < i ==> r@[j] == #[trigger] spec_timeline(
                    timestamps@,
                    now as int,
                    created_at as int,
                    is_running,
                )[j],
        decreases 48 - i,
    {
        let bar = if i == TIMELINE_BUCKETS - 1 {
            if is_running {
                TimelineBar::LiveUp
            } else {
                TimelineBar::LiveDown
            }
        } else {
            let bucket_start = window_start + (i as i64) * bucket_width;
            let bucket_end = bucket_start + bucket_width;
            if bucket_end <= created_at {
                TimelineBar::NotCreated
            } else if any_in_range(timestamps, bucket_start, bucket_end) {
                TimelineBar::Up
            } else {
                TimelineBar::Down
            }
        };
        r.push(bar);
        i = i + 1;
    }
    assert(r@ =~= spec_timeline(timestamps@, now as int, created_at as int, is_running));
    r
}

/// The uptime timeline as CSS classes, one per bucket, oldest first.
pub fn build_timeline(timestamps: &Vec<i64>, now: i64, created_at: i64, is_running: bool) -> (r: Vec<&'static str>)
    requires
        now >= i64::MIN + TIMELINE_WINDOW_SECS,
    ensures
        r@.len() == TIMELINE_BUCKETS,
        forall|i: int|
            0 <= i < r@.len() ==> r@[i] == (#[trigger] spec_timeline(
                timestamps@,
                now as int,
                created_at as int,
                is_running,
            )[i]).class_of(),
{
    let bars = timeline_bars(timestamps, now, created_at, is_running);
    let mut r: Vec<&'static str> = Vec::new();
    let mut i: usize = 0;
    while i < bars.len()
        invariant
            i <= bars@.len(),
            r@.len() == i,
            forall|j: int| 0 <= j < i ==> r@[j] == (#[trigger] bars@[j]).class_of(),
        decreases bars@.len() - i,
    {
        r.push(bars[i].css_class());
        i = i + 1;
    }
    r
}

/// What each bar of the timeline says. Bucket `i` covers the half hour
/// `[now - 86400 + 1800 i, now - 86400 + 1800 (i + 1))`. A bucket other than
/// the last is `NotCreated` exactly when it ends at or before the container's
/// creation; otherwise it is `Up` when any of the timestamps, at whatever
/// position in the list, lies in it, and `Down` when none does. The last
/// bucket shows whether the container runs now.
pub proof fn lemma_timeline_bars_meaning(
    timestamps: Seq<i64>,
    now: int,
    created_at: int,
    is_running: bool,
    i: int,
)
    requires
        0 <= i < 48,
    ensures
        spec_timeline(timestamps, now, created_at, is_running).len() == 48,
        i == 47 ==> spec_timeline(timestamps, now, created_at, is_running)[i] == if is_running {
            TimelineBar::LiveUp
        } else {
            TimelineBar::LiveDown
        },
        i < 47 ==> (spec_timeline(timestamps, now, created_at, is_running)[i] == TimelineBar::NotCreated
            <==> now - 86400 + i * 1800 + 1800 <= created_at),
        forall|k: int|
            0 <= k < timestamps.len() && i < 47 && now - 86400 + i * 1800 + 1800 > created_at && now
                - 86400 + i * 1800 <= #[trigger] timestamps[k] < now - 86400 + i * 1800 + 1800
                ==> spec_timeline(timestamps, now, created_at, is_running)[i] == TimelineBar::Up,
        (i < 47 && now - 86400 + i * 1800 + 1800 > created_at && forall|k: int|
            0 <= k < timestamps.len() ==> !(now - 86400 + i * 1800 <= #[trigger] timestamps[k] < now
                - 86400 + i * 1800 + 1800)) ==> spec_timeline(timestamps, now, created_at, is_running)[i]
            == TimelineBar::Down,
{
    assert forall|k: int|
        0 <= k < timestamps.len() && i < 47 && now - 86400 + i * 1800 + 1800 > created_at && now
            - 86400 + i * 1800 <= #[trigger] timestamps[k] < now - 86400 + i * 1800 + 1800
        implies spec_timeline(timestamps, now, created_at, is_running)[i] == TimelineBar::Up by {
        assert(has_sample(timestamps, bucket_start(now, i)));
    }
}

/// `s` without its leading run of `c` (`str::trim_start_matches`).
pub open spec fn strip_leading(s: Seq<char>, c: char) -> Seq<char>
    decreases s.len(),
{
    if s.len() > 0 && s[0] == c {
        strip_leading(s.drop_first(), c)
    } else {
        s
    }
}

/// Stripping leading `c`s removes the whole leading run and nothing else: what
/// is left ends the text, does not begin with `c`, and only `c`s precede it.
pub proof fn lemma_strip_leading_removes_the_run(s: Seq<char>, c: char)
    ensures
        strip_leading(s, c).len() <= s.len(),
        s.subrange(s.len() - strip_leading(s, c).len(), s.len() as int) == strip_leading(s, c),
        strip_leading(s, c).len() > 0 ==> strip_leading(s, c)[0] != c,
        forall|k: int| 0 <= k < s.len() - strip_leading(s, c).len() ==> #[trigger] s[k] == c,
    decreases s.len(),
{
    if s.len() > 0 && s[0] == c {
        let t = s.drop_first();
        lemma_strip_leading_removes_the_run(t, c);
        let r = strip_leading(s, c);
        assert(t.subrange(t.len() - r.len(), t.len() as int) =~= s.subrange(
            s.len() - r.len(),
            s.len() as int,
        ));
        assert forall|k: int| 0 <= k < s.len() - r.len() implies #[trigger] s[k] == c by {
            if k > 0 {
                assert(s[k] == t[k - 1]);
            }
        }
    } else {
        assert(s.subrange(0, s.len() as int) =~= s);
    }
}

/// Display name of a container: its first name, or its id when the daemon
/// reports no name, without the leading `/` that Docker puts in front of names.
pub open spec fn spec_container_name(id: Seq<char>, names: Option<Seq<String>>) -> Seq<char> {
    let base = match names {
        Some(ns) => if ns.len() > 0 {
            ns[0]@
        } else {
            id
        },
        None => id,
    };
    strip_leading(base, '/')
}

fn strip_leading_string(v: &Vec<char>, c: char) -> (r: String)
    ensures
        r@ == strip_leading(v@, c),
{
    let mut k: usize = 0;
    assert(v@.subrange(0, v@.len() as int) =~= v@);
    while k < v.len() && v[k] == c
        invariant
            k <= v@.len(),
            strip_leading(v@.subrange(k as int, v@.len() as int), c) == strip_leading(v@, c),
        decreases v@.len() - k,
    {
        assert(v@.subrange(k as int, v@.len() as int).drop_first() =~= v@.subrange(
            k + 1,
            v@.len() as int,
        ));
        k = k + 1;
    }
    let rest = sub_chars(v, k, v.len());
    chars_to_string(&rest)
}

/// Display name of a container from its id and the names the daemon lists.
pub fn container_name(id: &str, names: Option<Vec<String>>) -> (r: String)
    ensures
        r@ == spec_container_name(id@, match names {
            Some(ns) => Some(ns@),
            None => None,
        }),
{
    let base = match names {
        Some(ns) => if ns.len() > 0 {
            to_chars(ns[0].as_str())
        } else {
            to_chars(id)
        },
        None => to_chars(id),
    };
    strip_leading_string(&base, '/')
}

/// Alert component of a container (`docker_container_<name>`).
pub fn container_alert_component(name: &str) -> (r: String)
    ensures
        r@ == "docker_container_"@ + name@,
{
    let mut r = String::from_str("docker_container_");
    push_str(&mut r, name);
    r
}

/// Alert message of a stopped container (`Container <name> is down`).
pub fn container_down_message(name: &str) -> (r: String)
    ensures
        r@ == "Container "@ + name@ + " is down"@,
{
    let mut r = String::from_str("Container ");
    push_str(&mut r, name);
    push_str(&mut r, " is down");
    r
}

/// The dashboard entry of a container sampled at `now`: `image` is the image
/// reference (empty when unknown), `created_at` its creation time, `started_at`
/// what inspecting it gave (see `started_ago_label`), `timestamps` the times of
/// its samples over the last 24 hours.
pub fn container_sample(
    container_name: String,
    image: &str,
    is_running: bool,
    health: HealthStatus,
    now: i64,
    created_at: i64,
    started_at: Option<&str>,
    timestamps: &Vec<i64>,
) -> (s: DockerSample)
    requires
        now >= 0,
        i64::MIN <= now - created_at <= i64::MAX,
    ensures
        s.container_name == container_name,
        (s.image_repo@, s.version@) == spec_split_image(image@),
        s.is_running == is_running,
        s.health == health,
        s.created_ago@ == spec_humanize(elapsed(now as int, created_at as int)),
        s.started_ago@ == spec_started_ago(now as int, match started_at {
            Some(t) => Some(t@),
            None => None,
        }),
        s.timeline@.len() == TIMELINE_BUCKETS,
        forall|i: int|
            0 <= i < s.timeline@.len() ==> s.timeline@[i] == (#[trigger] spec_timeline(
                timestamps@,
                now as int,
                created_at as int,
                is_running,
            )[i]).class_of(),
{
    let (image_repo, version) = split_image(image);
    let created_ago = humanize_ago(now, created_at);
    let started_ago = started_ago_label(now, started_at);
    let timeline = build_timeline(timestamps, now, created_at, is_running);
    DockerSample {
        container_name,
        image_repo,
        version,
        is_running,
        health,
        created_ago,
        started_ago,
        timeline,
    }
}

} // verus!
