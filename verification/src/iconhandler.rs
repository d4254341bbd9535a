use vstd::prelude::*;
use std::path::PathBuf;

verus! {

#[verifier::external_type_specification]
#[verifier::external_body]
pub struct ExPathBuf(PathBuf);

/// The size and scale handed to the icon lookup for `size` and `scale`: none
/// when either is not positive or their product does not fit in an `i16`.
pub open spec fn icon_query_spec(size: i16, scale: i8) -> Option<(u16, u16)> {
    if size <= 0 || scale <= 0 || size as int * scale as int > i16::MAX {
        None
    } else {
        Some((size as u16, scale as u16))
    }
}

/// The size and scale to look an icon up at (see `icon_query_spec`).
pub fn icon_query(size: i16, scale: i8) -> (r: Option<(u16, u16)>)
    ensures
        r == icon_query_spec(size, scale),
{
    if size <= 0 || scale <= 0 {
        return None;
    }
    assert(0 < size as int * scale as int <= 32767 * 127) by (nonlinear_arith)
        requires
            0 < size <= 32767,
            0 < scale <= 127,
    ;
    let product: i32 = size as i32 * scale as i32;
    if product > i16::MAX as i32 {
        return None;
    }
    Some((size as u16, scale as u16))
}

/// A request for an icon theme lookup: the icon's name, the size and
/// scale to look for, and the theme to look in.
#[derive(Debug)]
pub struct IconLookup {
    pub name: String,
    pub size: u16,
    pub scale: u16,
    pub theme: String,
}

/// `q` asks for the icon `name` at `size` and `scale` (as `icon_query_spec`
/// turns them into a lookup's size and scale) in `theme`.
pub open spec fn asks_for(q: IconLookup, name: Seq<char>, size: i16, scale: i8, theme: Seq<char>) -> bool {
    &&& icon_query_spec(size, scale) == Some((q.size, q.scale))
    &&& q.name@ == name
    &&& q.theme@ == theme
}

/// The lookup of the icon `iconname` at `size` pixels and `scale` in
/// `theme`. Sizes and scales that are not positive, or whose product does
/// not fit in an `i16`, name no icon, and nothing is to be looked up.
pub fn look_up_icon(iconname: &str, size: i16, scale: i8, theme: &str) -> (r: Option<IconLookup>)
    ensures
        r is None <==> icon_query_spec(size, scale) is None,
        r matches Some(q) ==> asks_for(q, iconname@, size, scale, theme@),
{
    match icon_query(size, scale) {
        None => None,
        Some((sz, sc)) => Some(
            IconLookup {
                name: String::from_str(iconname),
                size: sz,
                scale: sc,
                theme: String::from_str(theme),
            },
        ),
    }
}

/// The lookup of the icon `icon` in `theme`, or in a theme it inherits from
/// (an icon theme lookup follows inheritance itself).
pub fn find_icon_helper(icon: &str, size: i16, scale: i8, theme: &str) -> (r: Option<IconLookup>)
    ensures
        r is None <==> icon_query_spec(size, scale) is None,
        r matches Some(q) ==> asks_for(q, icon@, size, scale, theme@),
{
    look_up_icon(icon, size, scale, theme)
}

/// The theme to look in next after a lookup that gave `found`: the default
/// theme "hicolor" when nothing was found, none otherwise.
pub fn fallback_theme(found: &Option<PathBuf>) -> (r: Option<&'static str>)
    ensures
        found is None ==> (r matches Some(t) && t@ == "hicolor"@),
        found is Some ==> r is None,
{
    match found {
        Some(_) => None,
        None => Some("hicolor"),
    }
}

/// The next step of the search for an icon.
#[derive(Debug)]
pub enum IconSearch {
    /// Look this up, and hand the answer back.
    Lookup(IconLookup),
    /// The icon is the answer of the lookup at this index.
    Found(usize),
    /// There is no icon.
    NotFound,
}

/// The next step of the search for the icon `icon` in the user's theme
/// `theme`, given the answers of the lookups done so far, in order: first
/// the user's theme, then, when that found nothing, the default theme
/// "hicolor" (see `fallback_theme`). Sizes and scales that name no icon
/// (see `icon_query_spec`) find nothing.
pub fn find_icon(
    icon: &str,
    size: i16,
    scale: i8,
    theme: &str,
    tried: &Vec<Option<PathBuf>>,
) -> (r: IconSearch)
    ensures
        icon_query_spec(size, scale) is None ==> r is NotFound,
        icon_query_spec(size, scale) is Some ==> if tried@.len() == 0 {
            r matches IconSearch::Lookup(q) && asks_for(q, icon@, size, scale, theme@)
        } else if tried@[0] is Some {
            r matches IconSearch::Found(i) && i == 0
        } else if tried@.len() == 1 {
            r matches IconSearch::Lookup(q) && asks_for(q, icon@, size, scale, "hicolor"@)
        } else if tried@[1] is Some {
            r matches IconSearch::Found(i) && i == 1
        } else {
            r is NotFound
        },
{
    if icon_query(size, scale).is_none() {
        return IconSearch::NotFound;
    }
    if tried.len() == 0 {
        return match find_icon_helper(icon, size, scale, theme) {
            Some(q) => IconSearch::Lookup(q),
            None => IconSearch::NotFound,
        };
    }
    match fallback_theme(&tried[0]) {
        None => IconSearch::Found(0),
        Some(t) => {
            if tried.len() == 1 {
                match find_icon_helper(icon, size, scale, t) {
                    Some(q) => IconSearch::Lookup(q),
                    None => IconSearch::NotFound,
                }
            } else if tried[1].is_some() {
                IconSearch::Found(1)
            } else {
                IconSearch::NotFound
            }
        },
    }
}

/// Whether `c` has the Unicode White_Space property, the whitespace that
/// `str::trim` removes.
pub open spec fn is_whitespace(c: char) -> bool {
    let u = c as u32;
    ||| 0x09 <= u <= 0x0d
    ||| u == 0x20
    ||| u == 0x85
    ||| u == 0xa0
    ||| u == 0x1680
    ||| 0x2000 <= u <= 0x200a
    ||| u == 0x2028
    ||| u == 0x2029
    ||| u == 0x202f
    ||| u == 0x205f
    ||| u == 0x3000
}

fn whitespace(c: char) -> (r: bool)
    ensures
        r == is_whitespace(c),
{
    let u = c as u32;
    (0x09 <= u && u <= 0x0d) || u == 0x20 || u == 0x85 || u == 0xa0 || u == 0x1680 || (0x2000 <= u
        && u <= 0x200a) || u == 0x2028 || u == 0x2029 || u == 0x202f || u == 0x205f || u == 0x3000
}

/// `s` without its leading and trailing whitespace: the part from its first
/// to its last character that is not whitespace.
pub open spec fn trimmed(s: Seq<char>) -> Seq<char> {
    if forall|k: int| 0 <= k < s.len() ==> is_whitespace(#[trigger] s[k]) {
        Seq::empty()
    } else {
        let start = choose|i: int|
            0 <= i < s.len() && !is_whitespace(s[i]) && forall|k: int|
                0 <= k < i ==> is_whitespace(#[trigger] s[k]);
        let end = choose|j: int|
            0 <= j < s.len() && !is_whitespace(s[j]) && forall|k: int|
                j < k < s.len() ==> is_whitespace(#[trigger] s[k]);
        s.subrange(start, end + 1)
    }
}

/// `s` without its leading and trailing whitespace.
pub fn trim(s: &str) -> (r: String)
    ensures
        r@ == trimmed(s@),
{
    let n = s.unicode_len();
    let mut i: usize = 0;
    while i < n && whitespace(s.get_char(i))
        invariant
            n == s@.len(),
            i <= n,
            forall|k: int| 0 <= k < i ==> is_whitespace(#[trigger] s@[k]),
        decreases n - i,
    {
        i += 1;
    }
    if i == n {
        let r = String::new();
        assert(r@ =~= trimmed(s@));
        return r;
    }
    let mut j: usize = n;
    while j > i + 1 && whitespace(s.get_char(j - 1))
        invariant
            n == s@.len(),
            i < j <= n,
            !is_whitespace(s@[i as int]),
            forall|k: int| j <= k < n ==> is_whitespace(#[trigger] s@[k]),
        decreases j,
    {
        j -= 1;
    }
    let ghost start = choose|a: int|
        0 <= a < s@.len() && !is_whitespace(s@[a]) && forall|k: int|
            0 <= k < a ==> is_whitespace(#[trigger] s@[k]);
    let ghost end = choose|b: int|
        0 <= b < s@.len() && !is_whitespace(s@[b]) && forall|k: int|
            b < k < s@.len() ==> is_whitespace(#[trigger] s@[k]);
    assert(!is_whitespace(s@[j - 1]));
    assert(start == i) by {
        assert(!is_whitespace(s@[i as int]));
        if start < i {
            assert(is_whitespace(s@[start]));
        }
        if start > i {
            assert(is_whitespace(s@[i as int]));
        }
    }
    assert(end == j - 1) by {
        if end < j - 1 {
            assert(is_whitespace(s@[j - 1]));
        }
        if end > j - 1 {
            assert(is_whitespace(s@[end]));
        }
    }
    s.substring_char(i, j).to_owned()
}

/// The icons known so far: the icon theme, and the icon loaded for each
/// MIME type seen.
pub struct Icons {
    pub theme: String,
    mimesloaded: Vec<(String, usize)>,
}

/// The map that a list of distinct (key, value) pairs stands for.
pub open spec fn pairs_map(s: Seq<(String, usize)>) -> Map<Seq<char>, usize>
    decreases s.len(),
{
    if s.len() == 0 {
        Map::empty()
    } else {
        pairs_map(s.drop_last()).insert(s.last().0@, s.last().1)
    }
}

/// What asking for the icon of `mime` does to the cache, when `candidate`
/// is the icon just loaded for it: a MIME type seen before keeps its icon,
/// a new one gets `candidate`.
pub open spec fn icon_step(cache: Map<Seq<char>, usize>, mime: Seq<char>, candidate: usize) -> (
    usize,
    Map<Seq<char>, usize>,
) {
    if cache.contains_key(mime) {
        (cache[mime], cache)
    } else {
        (candidate, cache.insert(mime, candidate))
    }
}

proof fn lemma_pairs_map(s: Seq<(String, usize)>)
    requires
        forall|i: int, j: int| 0 <= i < j < s.len() ==> #[trigger] s[i].0@ != #[trigger] s[j].0@,
    ensures
        forall|i: int|
            0 <= i < s.len() ==> #[trigger] pairs_map(s).contains_key(s[i].0@) && pairs_map(s)[s[i].0@]
                == s[i].1,
        forall|k: Seq<char>|
            #[trigger] pairs_map(s).contains_key(k) ==> exists|i: int|
                0 <= i < s.len() && #[trigger] s[i].0@ == k,
    decreases s.len(),
{
    if s.len() > 0 {
        let t = s.drop_last();
        lemma_pairs_map(t);
        assert forall|i: int| 0 <= i < s.len() implies #[trigger] pairs_map(s).contains_key(s[i].0@)
            && pairs_map(s)[s[i].0@] == s[i].1 by {
            if i < s.len() - 1 {
                assert(t[i] == s[i]);
                assert(s[i].0@ != s[s.len() - 1].0@);
                assert(pairs_map(t).contains_key(t[i].0@));
            }
        }
        assert forall|k: Seq<char>| #[trigger] pairs_map(s).contains_key(k) implies exists|i: int|
            0 <= i < s.len() && #[trigger] s[i].0@ == k by {
            if k != s.last().0@ {
                assert(pairs_map(t).contains_key(k));
                let i = choose|i: int| 0 <= i < t.len() && #[trigger] t[i].0@ == k;
                assert(s[i] == t[i]);
            } else {
                assert(s[s.len() - 1].0@ == k);
            }
        }
    }
}

impl Icons {
    /// No MIME type is listed twice.
    pub closed spec fn wf(self) -> bool {
        forall|i: int, j: int|
            0 <= i < j < self.mimesloaded@.len() ==> #[trigger] self.mimesloaded@[i].0@
                != #[trigger] self.mimesloaded@[j].0@
    }

    /// The name of the icon theme.
    pub closed spec fn theme_view(self) -> Seq<char> {
        self.theme@
    }

    /// The name of the icon theme.
    pub fn theme(&self) -> (r: &String)
        ensures
            r@ == self.theme_view(),
    {
        &self.theme
    }

    /// The icon index of each MIME type seen so far.
    pub closed spec fn cache(self) -> Map<Seq<char>, usize> {
        pairs_map(self.mimesloaded@)
    }

    /// The icons of the theme named by `theme_setting` (the setting as read,
    /// surrounding whitespace removed), with no MIME type seen yet.
    pub fn new(theme_setting: &str) -> (r: Icons)
        ensures
            r.wf(),
            r.theme_view() == trimmed(theme_setting@),
            r.cache() == Map::<Seq<char>, usize>::empty(),
    {
        Icons { theme: trim(theme_setting), mimesloaded: Vec::new() }
    }

    /// The icon of a file of type `mime`, when `loaded` is the icon just
    /// loaded for it (`None` when none was found): a type seen before keeps
    /// the icon it got first; a new type gets the icon loaded, or the
    /// generic icon 1 when none was found.
    pub fn get_icon(&mut self, mime: String, loaded: Option<usize>) -> (r: usize)
        requires
            old(self).wf(),
        ensures
            final(self).wf(),
            final(self).theme_view() == old(self).theme_view(),
            (r, final(self).cache()) == icon_step(
                old(self).cache(),
                mime@,
                match loaded {
                    Some(i) => i,
                    None => 1,
                },
            ),
    {
        let candidate = match loaded {
            Some(i) => i,
            None => 1,
        };
        let mut i: usize = 0;
        while i < self.mimesloaded.len()
            invariant
                i <= self.mimesloaded@.len(),
                *self == *old(self),
                self.wf(),
                forall|k: int| 0 <= k < i ==> #[trigger] self.mimesloaded@[k].0@ != mime@,
            decreases self.mimesloaded@.len() - i,
        {
            if self.mimesloaded[i].0 == mime {
                proof {
                    lemma_pairs_map(self.mimesloaded@);
                }
                return self.mimesloaded[i].1;
            }
            i += 1;
        }
        let ghost old_list = self.mimesloaded@;
        proof {
            lemma_pairs_map(self.mimesloaded@);
        }
        self.mimesloaded.push((mime, candidate));
        proof {
            assert(self.mimesloaded@.drop_last() =~= old_list);
        }
        candidate
    }
}

/// Asking twice for the icon of the same MIME type gives the same icon, and
/// the second time leaves the cache as it was.
pub proof fn lemma_icon_stable(
    cache: Map<Seq<char>, usize>,
    mime: Seq<char>,
    first: usize,
    second: usize,
)
    ensures
        icon_step(icon_step(cache, mime, first).1, mime, second).0 == icon_step(cache, mime, first).0,
        icon_step(icon_step(cache, mime, first).1, mime, second).1 == icon_step(cache, mime, first).1,
{
}


/// The directories where icon themes are looked for, given the home
/// directory and the system data directory: `~/.icons`, the data
/// directory's `icons`, and `/usr/share/pixmaps`.
pub fn icon_basedirs(home: String, xdgdata: String) -> (r: Vec<String>)
    ensures
        r@.len() == 3,
        r@[0]@ == home@ + "/.icons"@,
        r@[1]@ == xdgdata@ + "/icons"@,
        r@[2]@ == "/usr/share/pixmaps"@,
{
    let mut r: Vec<String> = Vec::new();
    r.push(home.concat("/.icons"));
    r.push(xdgdata.concat("/icons"));
    r.push(String::from_str("/usr/share/pixmaps"));
    r
}

} // verus!
