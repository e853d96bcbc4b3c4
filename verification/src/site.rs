//! Site endpoints and the site builder: the pure bookkeeping behind static
//! site generation. An endpoint is a slash-separated route split into a
//! directory part and a final name; the builder maps endpoints to rendered
//! responses. Writing the files out belongs to the embedding program, which
//! takes the paths and contents computed here.

use vstd::prelude::*;
use vstd::string::{StringExecFns, StrSliceExecFns};

verus! {

/// The model of an endpoint: its directory parts and its final name.
pub struct EndpointModel {
    pub dir: Seq<Seq<char>>,
    pub name: Seq<char>,
}

/// The parts joined with `/` between them.
pub open spec fn join_slash(parts: Seq<Seq<char>>) -> Seq<char>
    decreases parts.len(),
{
    if parts.len() == 0 {
        Seq::empty()
    } else if parts.len() == 1 {
        parts[0]
    } else {
        parts[0] + "/"@ + join_slash(parts.subrange(1, parts.len() as int))
    }
}

/// Joining one more part appends a separator and the part.
proof fn lemma_join_slash_push(parts: Seq<Seq<char>>, part: Seq<char>)
    ensures
        join_slash(parts.push(part)) == if parts.len() == 0 {
            part
        } else {
            join_slash(parts) + "/"@ + part
        },
    decreases parts.len(),
{
    let grown = parts.push(part);
    if parts.len() == 0 {
        assert(grown.len() == 1);
        assert(grown[0] == part);
    } else {
        assert(grown[0] == parts[0]);
        assert(grown.subrange(1, grown.len() as int) =~= parts.subrange(
            1,
            parts.len() as int,
        ).push(part));
        lemma_join_slash_push(parts.subrange(1, parts.len() as int), part);
        if parts.len() == 1 {
            assert(parts.subrange(1, 1) =~= Seq::<Seq<char>>::empty());
            assert(join_slash(parts) == parts[0]);
        } else {
            assert(parts[0] + "/"@ + (join_slash(parts.subrange(1, parts.len() as int)) + "/"@
                + part) =~= (parts[0] + "/"@ + join_slash(parts.subrange(1, parts.len() as int)))
                + "/"@ + part);
        }
    }
}

/// The models of a sequence of route segments.
pub open spec fn segments_view(parts: Seq<&str>) -> Seq<Seq<char>> {
    Seq::new(parts.len(), |i: int| parts[i]@)
}

/// An endpoint: a route's directory parts and its final name, kept apart
/// so that a directory and a file name can be derived from them.
pub struct Endpoint {
    dir: Vec<String>,
    name: String,
}

/// The models of a sequence of directory parts.
pub open spec fn parts_view(parts: Seq<String>) -> Seq<Seq<char>> {
    Seq::new(parts.len(), |i: int| parts[i]@)
}

impl View for Endpoint {
    type V = EndpointModel;

    closed spec fn view(&self) -> EndpointModel {
        EndpointModel { dir: parts_view(self.dir@), name: self.name@ }
    }
}

impl Endpoint {
    /// Split a route given as segments: all but the last segment form the
    /// directory, the last is the name.
    pub fn new(path: &[&str]) -> (r: Endpoint)
        requires
            path@.len() >= 1,
        ensures
            r@.dir == segments_view(path@.subrange(0, path@.len() - 1)),
            r@.name == path@[path@.len() - 1]@,
    {
        let mut dir: Vec<String> = Vec::new();
        let n = path.len();
        let mut i: usize = 0;
        while i < n - 1
            invariant
                n == path@.len(),
                1 <= n,
                i <= n - 1,
                parts_view(dir@) =~= segments_view(path@.subrange(0, i as int)),
            decreases n - 1 - i,
        {
            let ghost before = parts_view(dir@);
            dir.push(path[i].to_owned());
            proof {
                assert(parts_view(dir@) =~= before.push(path@[i as int]@));
                assert(segments_view(path@.subrange(0, i as int + 1)) =~= segments_view(
                    path@.subrange(0, i as int),
                ).push(path@[i as int]@));
            }
            i = i + 1;
        }
        let name = path[n - 1].to_owned();
        Endpoint { dir, name }
    }

    /// The directory this endpoint's files go in, under `prefix`:
    /// `prefix/part/.../part`.
    pub fn dir(&self, prefix: &str) -> (r: String)
        ensures
            r@ == prefix@ + "/"@ + join_slash(self@.dir),
    {
        let mut out = prefix.to_owned();
        out.append("/");
        let mut i: usize = 0;
        while i < self.dir.len()
            invariant
                i <= self.dir.len(),
                out@ == prefix@ + "/"@ + join_slash(parts_view(self.dir@).subrange(0, i as int)),
            decreases self.dir.len() - i,
        {
            let ghost done = parts_view(self.dir@).subrange(0, i as int);
            if i > 0 {
                out.append("/");
            }
            out.append(self.dir[i].as_str());
            proof {
                lemma_join_slash_push(done, self.dir@[i as int]@);
                assert(parts_view(self.dir@).subrange(0, i as int + 1) =~= done.push(
                    self.dir@[i as int]@,
                ));
                if i > 0 {
                    assert((prefix@ + "/"@ + join_slash(done)) + "/"@ + self.dir@[i as int]@
                        =~= prefix@ + "/"@ + (join_slash(done) + "/"@ + self.dir@[i as int]@));
                } else {
                    assert(join_slash(done) =~= Seq::<char>::empty());
                    assert((prefix@ + "/"@ + join_slash(done)) + self.dir@[i as int]@ =~= prefix@
                        + "/"@ + self.dir@[i as int]@);
                }
            }
            i = i + 1;
        }
        proof {
            assert(parts_view(self.dir@).subrange(0, self.dir@.len() as int) =~= parts_view(
                self.dir@,
            ));
        }
        out
    }

    /// The file name this endpoint writes to: its name with `.html`
    /// appended.
    pub fn name(&self) -> (r: String)
        ensures
            r@ == self@.name + ".html"@,
    {
        let mut name = self.name.clone();
        name.append(".html");
        name
    }

    /// The whole file path under `prefix`: the directory, a separator, and
    /// the file name.
    pub fn path(&self, prefix: &str) -> (r: String)
        ensures
            r@ == prefix@ + "/"@ + join_slash(self@.dir) + "/"@ + self@.name + ".html"@,
    {
        let mut out = self.dir(prefix);
        out.append("/");
        let n = self.name();
        out.append(n.as_str());
        out
    }

    /// Split a slash-separated route: the segments before the last slash
    /// form the directory, what follows it is the name.
    pub fn from_route(value: &str) -> (r: Endpoint)
        ensures
            r@.dir == split_slash(value@, 0).drop_last(),
            r@.name == split_slash(value@, 0).last(),
    {
        let n = value.unicode_len();
        let mut parts: Vec<String> = Vec::new();
        let mut start: usize = 0;
        let mut finished = false;
        proof {
            lemma_split_slash_nonempty(value@, 0);
        }
        while !finished
            invariant
                n == value@.len(),
                start <= n,
                !finished ==> parts_view(parts@) + split_slash(value@, start as int)
                    =~= split_slash(value@, 0),
                finished ==> parts_view(parts@) =~= split_slash(value@, 0),
            decreases n - start, (if finished { 0int } else { 1int }),
        {
            let mut k = start;
            while k < n && value.get_char(k) != '/'
                invariant
                    n == value@.len(),
                    start <= k <= n,
                    forall|j: int| start <= j < k ==> value@[j] != '/',
                decreases n - k,
            {
                k = k + 1;
            }
            proof {
                lemma_first_slash_is_first(value@, start as int, k as int);
            }
            let part = value.substring_char(start, k);
            let ghost before = parts_view(parts@);
            parts.push(part.to_owned());
            proof {
                assert(parts_view(parts@) =~= before.push(value@.subrange(
                    start as int,
                    k as int,
                )));
            }
            if k < n {
                proof {
                    assert(before.push(value@.subrange(start as int, k as int)) + split_slash(
                        value@,
                        k as int + 1,
                    ) =~= before + split_slash(value@, start as int));
                }
                start = k + 1;
            } else {
                proof {
                    assert(split_slash(value@, start as int) =~= seq![
                        value@.subrange(start as int, n as int),
                    ]);
                    assert(parts_view(parts@) =~= before + split_slash(value@, start as int));
                }
                finished = true;
            }
        }
        proof {
            assert(parts@.len() == split_slash(value@, 0).len());
        }
        let name = match parts.pop() {
            Some(last) => last,
            None => String::new(),
        };
        let ghost full = split_slash(value@, 0);
        proof {
            assert(parts_view(parts@) =~= full.drop_last());
        }
        Endpoint { dir: parts, name }
    }
}

/// The index of the first slash at or past `pos`, or the input length if
/// there is none.
pub open spec fn first_slash(s: Seq<char>, pos: int) -> int
    decreases s.len() - pos when 0 <= pos <= s.len()
{
    if pos >= s.len() {
        s.len() as int
    } else if s[pos] == '/' {
        pos
    } else {
        first_slash(s, pos + 1)
    }
}

proof fn lemma_first_slash_bounds(s: Seq<char>, pos: int)
    requires
        0 <= pos <= s.len(),
    ensures
        pos <= first_slash(s, pos) <= s.len(),
    decreases s.len() - pos,
{
    if pos < s.len() && s[pos] != '/' {
        lemma_first_slash_bounds(s, pos + 1);
    }
}

/// `first_slash` is the least index at or past `pos` holding a slash.
proof fn lemma_first_slash_is_first(s: Seq<char>, pos: int, end: int)
    requires
        0 <= pos <= end <= s.len(),
        forall|k: int| pos <= k < end ==> s[k] != '/',
        end == s.len() || s[end] == '/',
    ensures
        first_slash(s, pos) == end,
    decreases end - pos,
{
    if pos < end {
        lemma_first_slash_is_first(s, pos + 1, end);
    }
}

/// The segments of the text from `pos` on, split at every slash. Splitting
/// always yields at least one segment; a slash at the end yields a final
/// empty one.
pub open spec fn split_slash(s: Seq<char>, pos: int) -> Seq<Seq<char>>
    decreases s.len() - pos when 0 <= pos <= s.len()
    via split_slash_decreases
{
    let k = first_slash(s, pos);
    if k >= s.len() {
        seq![s.subrange(pos, s.len() as int)]
    } else {
        seq![s.subrange(pos, k)] + split_slash(s, k + 1)
    }
}

#[via_fn]
proof fn split_slash_decreases(s: Seq<char>, pos: int) {
    lemma_first_slash_bounds(s, pos);
}

proof fn lemma_split_slash_nonempty(s: Seq<char>, pos: int)
    requires
        0 <= pos <= s.len(),
    ensures
        split_slash(s, pos).len() >= 1,
{
    lemma_first_slash_bounds(s, pos);
}

/// The models of a sequence of endpoint/response pairs.
pub open spec fn site_pairs_view(entries: Seq<(Endpoint, String)>) -> Seq<
    (EndpointModel, Seq<char>),
> {
    Seq::new(entries.len(), |i: int| (entries[i].0@, entries[i].1@))
}

/// The mapping spelled by a sequence of endpoint/response pairs, later
/// pairs overriding earlier ones.
pub open spec fn site_map_of(entries: Seq<(EndpointModel, Seq<char>)>) -> Map<
    EndpointModel,
    Seq<char>,
>
    decreases entries.len(),
{
    if entries.len() == 0 {
        Map::empty()
    } else {
        site_map_of(entries.drop_last()).insert(entries.last().0, entries.last().1)
    }
}

/// A static site under construction: responses filed under endpoints, as
/// full pages or as partials.
pub trait StaticSite {
    /// The pages added so far, endpoint to response.
    spec fn site_pages(&self) -> Map<EndpointModel, Seq<char>>;

    /// The partial endpoints added so far, endpoint to response.
    spec fn site_endpoints(&self) -> Map<EndpointModel, Seq<char>>;

    /// File a full page under its endpoint, replacing any earlier response
    /// there.
    fn add_page(&mut self, path: Endpoint, response: String)
        ensures
            final(self).site_pages() == old(self).site_pages().insert(path@, response@),
            final(self).site_endpoints() == old(self).site_endpoints(),
    ;

    /// File a partial response under its endpoint, replacing any earlier
    /// response there.
    fn add_endpoint(&mut self, path: Endpoint, response: String)
        ensures
            final(self).site_endpoints() == old(self).site_endpoints().insert(path@, response@),
            final(self).site_pages() == old(self).site_pages(),
    ;
}

/// The builder behind a generated site: it keeps pages and partial
/// endpoints apart, in insertion order. The embedding program drains both
/// lists into files, deriving each path from its endpoint.
pub struct SiteBuilder {
    pages: Vec<(Endpoint, String)>,
    endpoints: Vec<(Endpoint, String)>,
}

impl SiteBuilder {
    /// An empty site: nothing filed yet.
    pub fn new() -> (r: SiteBuilder)
        ensures
            r.site_pages() == Map::<EndpointModel, Seq<char>>::empty(),
            r.site_endpoints() == Map::<EndpointModel, Seq<char>>::empty(),
    {
        SiteBuilder { pages: Vec::new(), endpoints: Vec::new() }
    }

    /// The pages filed so far, in insertion order; a later pair with the
    /// same endpoint supersedes an earlier one.
    pub fn pages(&self) -> (r: &Vec<(Endpoint, String)>)
        ensures
            site_map_of(site_pairs_view(r@)) == self.site_pages(),
    {
        &self.pages
    }

    /// The partial endpoints filed so far, in insertion order.
    pub fn endpoints(&self) -> (r: &Vec<(Endpoint, String)>)
        ensures
            site_map_of(site_pairs_view(r@)) == self.site_endpoints(),
    {
        &self.endpoints
    }
}

impl StaticSite for SiteBuilder {
    closed spec fn site_pages(&self) -> Map<EndpointModel, Seq<char>> {
        site_map_of(site_pairs_view(self.pages@))
    }

    closed spec fn site_endpoints(&self) -> Map<EndpointModel, Seq<char>> {
        site_map_of(site_pairs_view(self.endpoints@))
    }

    fn add_page(&mut self, path: Endpoint, response: String) {
        let ghost before = site_pairs_view(self.pages@);
        let ghost pm = path@;
        let ghost rm = response@;
        self.pages.push((path, response));
        proof {
            let after = site_pairs_view(self.pages@);
            assert(after.drop_last() =~= before);
            assert(after.last() == (pm, rm));
        }
    }

    fn add_endpoint(&mut self, path: Endpoint, response: String) {
        let ghost before = site_pairs_view(self.endpoints@);
        let ghost pm = path@;
        let ghost rm = response@;
        self.endpoints.push((path, response));
        proof {
            let after = site_pairs_view(self.endpoints@);
            assert(after.drop_last() =~= before);
            assert(after.last() == (pm, rm));
        }
    }
}

/// The fixed page shell: a head with character set, viewport, title and
/// script, then the caller's already-rendered body text standing in the
/// html element's content slot.
pub open spec fn page_html(slot: Seq<char>) -> Seq<char> {
    "<html lang=\"en\"><head><meta charset=\"UTF-8\"/><meta name=\"viewport\" content=\"width=device-width\"/><title>Will this work???</title><script src=\"https://unpkg.com/htmx.org@1.9.2\" integrity=\"sha384-L6OqL9pRWyyFU3+/bjdSri+iIphTN/bvYyM37tICVyOJkWZLpP2vGn6VUEXgzg6h\" crossorigin=\"anonymous\"/></head>"@
        + slot + "</html>"@
}

/// Wrap an already-rendered page body in the fixed page shell.
pub fn page_template(slot: String) -> (r: String)
    ensures
        r@ == page_html(slot@),
{
    let mut out = String::from_str(
        "<html lang=\"en\"><head><meta charset=\"UTF-8\"/><meta name=\"viewport\" content=\"width=device-width\"/><title>Will this work???</title><script src=\"https://unpkg.com/htmx.org@1.9.2\" integrity=\"sha384-L6OqL9pRWyyFU3+/bjdSri+iIphTN/bvYyM37tICVyOJkWZLpP2vGn6VUEXgzg6h\" crossorigin=\"anonymous\"/></head>",
    );
    out.append(slot.as_str());
    out.append("</html>");
    out
}

} // verus!
