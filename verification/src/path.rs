//! Text interpreted as a sequence of delimited path segments.
//!
//! Content is scanned left to right: every `/`-delimited token before the
//! first `:` is a *name* segment, every `:`-delimited token after it a
//! *subname* segment. [`render`] says how a segment decomposition prints
//! back into bytes — names joined by `/`, every subname preceded by `:` —
//! and the parser is proved to decompose its input so that rendering
//! reproduces it exactly.

use vstd::prelude::*;

use crate::content::lemma_truncated_of_null_free;
use crate::content::null_free;
use crate::content::truncate_at_null;
use crate::content::truncated;
use crate::identity::StringIdentity;
use crate::plain::PlainString;

verus! {

/// The delimiter between name segments.
pub const NAME_DELIM: u8 = 47;

/// The delimiter before each subname segment.
pub const SUBNAME_DELIM: u8 = 58;

/// Bytes a name segment may hold: no null byte and neither delimiter.
pub open spec fn name_ok(s: Seq<u8>) -> bool {
    forall|i: int| 0 <= i < s.len() ==> s[i] != 0 && s[i] != NAME_DELIM && s[i] != SUBNAME_DELIM
}

/// Bytes a subname segment may hold: no null byte and no subname
/// delimiter (a name delimiter is an ordinary byte here).
pub open spec fn subname_ok(s: Seq<u8>) -> bool {
    forall|i: int| 0 <= i < s.len() ==> s[i] != 0 && s[i] != SUBNAME_DELIM
}

/// Name segments joined by the name delimiter.
pub open spec fn join_names(parts: Seq<Seq<u8>>) -> Seq<u8>
    decreases parts.len(),
{
    if parts.len() == 0 {
        Seq::empty()
    } else if parts.len() == 1 {
        parts[0]
    } else {
        parts[0] + seq![NAME_DELIM] + join_names(parts.skip(1))
    }
}

/// Subname segments, each preceded by the subname delimiter.
pub open spec fn join_subnames(parts: Seq<Seq<u8>>) -> Seq<u8>
    decreases parts.len(),
{
    if parts.len() == 0 {
        Seq::empty()
    } else {
        seq![SUBNAME_DELIM] + parts[0] + join_subnames(parts.skip(1))
    }
}

/// The full content of a segment decomposition.
pub open spec fn render(names: Seq<Seq<u8>>, subnames: Seq<Seq<u8>>) -> Seq<u8> {
    join_names(names) + join_subnames(subnames)
}

/// The byte sequences held by a sequence of byte vectors.
pub open spec fn segment_views(v: Seq<Vec<u8>>) -> Seq<Seq<u8>> {
    v.map_values(|x: Vec<u8>| x@)
}

/// Resolves a possibly negative segment index against the total segment
/// count: a negative index counts from the end, and the result is clamped
/// into `0 ..= total`.
pub open spec fn resolve_index(idx: int, total: int) -> int {
    let shifted = if idx < 0 {
        idx + total
    } else {
        idx
    };
    if shifted < 0 {
        0
    } else if shifted > total {
        total
    } else {
        shifted
    }
}

/// The name segments selected by the resolved range `b .. e` over the
/// combined segments. A selection that covers no name segment keeps the
/// single empty name, so that it renders without leading content before
/// its subname delimiters.
pub open spec fn selected_names(names: Seq<Seq<u8>>, b: int, e: int) -> Seq<Seq<u8>> {
    if b < e && b < names.len() {
        names.subrange(
            b,
            if e <= names.len() {
                e
            } else {
                names.len() as int
            },
        )
    } else {
        seq![Seq::<u8>::empty()]
    }
}

/// The subname segments selected by the resolved range `b .. e` over the
/// combined segments, of which the first `n` are names.
pub open spec fn selected_subnames(subnames: Seq<Seq<u8>>, n: int, b: int, e: int) -> Seq<
    Seq<u8>,
> {
    let sb = if b <= n {
        0
    } else {
        b - n
    };
    let se = e - n;
    if sb < se {
        subnames.subrange(sb, se)
    } else {
        Seq::empty()
    }
}

/// Appending one more name extends the join by a delimiter and the new
/// name — except for the first name, which stands alone.
pub proof fn lemma_join_names_push(parts: Seq<Seq<u8>>, x: Seq<u8>)
    ensures
        join_names(parts.push(x)) == if parts.len() == 0 {
            x
        } else {
            join_names(parts) + seq![NAME_DELIM] + x
        },
    decreases parts.len(),
{
    let p2 = parts.push(x);
    if parts.len() == 0 {
        assert(p2.len() == 1);
        assert(p2[0] == x);
    } else {
        assert(p2.skip(1) =~= parts.skip(1).push(x));
        lemma_join_names_push(parts.skip(1), x);
        assert(join_names(p2) =~= join_names(parts) + seq![NAME_DELIM] + x);
    }
}

/// Appending one more subname extends the join by a delimiter and the new
/// subname.
pub proof fn lemma_join_subnames_push(parts: Seq<Seq<u8>>, x: Seq<u8>)
    ensures
        join_subnames(parts.push(x)) == join_subnames(parts) + seq![SUBNAME_DELIM] + x,
    decreases parts.len(),
{
    let p2 = parts.push(x);
    if parts.len() == 0 {
        assert(parts =~= Seq::<Seq<u8>>::empty());
        assert(p2.skip(1) =~= Seq::<Seq<u8>>::empty());
        assert(join_subnames(Seq::<Seq<u8>>::empty()) == Seq::<u8>::empty());
        assert(p2[0] == x);
        assert(join_subnames(p2) =~= join_subnames(parts) + seq![SUBNAME_DELIM] + x);
    } else {
        assert(p2.skip(1) =~= parts.skip(1).push(x));
        lemma_join_subnames_push(parts.skip(1), x);
        assert(join_subnames(p2) =~= join_subnames(parts) + seq![SUBNAME_DELIM] + x);
    }
}

/// Joined null-free names are null-free.
pub proof fn lemma_join_names_null_free(parts: Seq<Seq<u8>>)
    requires
        forall|k: int| 0 <= k < parts.len() ==> null_free(#[trigger] parts[k]),
    ensures
        null_free(join_names(parts)),
    decreases parts.len(),
{
    if parts.len() <= 1 {
    } else {
        assert(forall|k: int|
            0 <= k < parts.skip(1).len() ==> null_free(#[trigger] parts.skip(1)[k]));
        lemma_join_names_null_free(parts.skip(1));
        assert(null_free(parts[0]));
    }
}

/// Joined null-free subnames are null-free.
pub proof fn lemma_join_subnames_null_free(parts: Seq<Seq<u8>>)
    requires
        forall|k: int| 0 <= k < parts.len() ==> null_free(#[trigger] parts[k]),
    ensures
        null_free(join_subnames(parts)),
    decreases parts.len(),
{
    if parts.len() == 0 {
    } else {
        assert(forall|k: int|
            0 <= k < parts.skip(1).len() ==> null_free(#[trigger] parts.skip(1)[k]));
        lemma_join_subnames_null_free(parts.skip(1));
        assert(null_free(parts[0]));
    }
}

/// A text value decomposed into name segments followed by subname
/// segments. A path always holds at least one (possibly empty) name, so
/// that the decomposition of every byte sequence — the empty one included —
/// is represented uniformly.
#[derive(Debug, Hash)]
pub struct SegmentedPath {
    names: Vec<Vec<u8>>,
    subnames: Vec<Vec<u8>>,
}

impl SegmentedPath {
    /// The name segments, as byte sequences.
    pub closed spec fn names_view(&self) -> Seq<Seq<u8>> {
        segment_views(self.names@)
    }

    /// The subname segments, as byte sequences.
    pub closed spec fn subnames_view(&self) -> Seq<Seq<u8>> {
        segment_views(self.subnames@)
    }

    /// The content the path stands for: its segments rendered with their
    /// delimiters.
    pub open spec fn content(&self) -> Seq<u8> {
        render(self.names_view(), self.subnames_view())
    }

    /// Every constructor establishes this invariant: at least one name,
    /// delimiter-clean segments, and a total segment count that fits the
    /// machine.
    pub open spec fn wf(&self) -> bool {
        &&& self.names_view().len() >= 1
        &&& self.names_view().len() + self.subnames_view().len() - 1 <= usize::MAX
        &&& forall|k: int| 0 <= k < self.names_view().len() ==> name_ok(#[trigger] self.names_view()[k])
        &&& forall|k: int|
            0 <= k < self.subnames_view().len() ==> subname_ok(#[trigger] self.subnames_view()[k])
    }

    /// Scans null-free content left to right into its segments. Rendering
    /// the result reproduces the input exactly.
    fn parse_null_free(b: &[u8]) -> (r: SegmentedPath)
        requires
            null_free(b@),
        ensures
            r.wf(),
            r.content() == b@,
    {
        let mut names: Vec<Vec<u8>> = Vec::new();
        let mut subnames: Vec<Vec<u8>> = Vec::new();
        let mut cur: Vec<u8> = Vec::new();
        let mut in_sub: bool = false;
        let mut i: usize = 0;
        while i < b.len()
            invariant
                null_free(b@),
                0 <= i <= b@.len(),
                names@.len() + subnames@.len() <= i,
                !in_sub ==> subnames@.len() == 0,
                in_sub ==> names@.len() >= 1,
                forall|k: int|
                    0 <= k < segment_views(names@).len() ==> name_ok(
                        #[trigger] segment_views(names@)[k],
                    ),
                forall|k: int|
                    0 <= k < segment_views(subnames@).len() ==> subname_ok(
                        #[trigger] segment_views(subnames@)[k],
                    ),
                !in_sub ==> name_ok(cur@),
                in_sub ==> subname_ok(cur@),
                !in_sub ==> b@.take(i as int) == (if names@.len() == 0 {
                    cur@
                } else {
                    join_names(segment_views(names@)) + seq![NAME_DELIM] + cur@
                }),
                in_sub ==> b@.take(i as int) == join_names(segment_views(names@))
                    + join_subnames(segment_views(subnames@)) + seq![SUBNAME_DELIM] + cur@,
            decreases b@.len() - i,
        {
            let c = b[i];
            proof {
                assert(b@.take(i + 1) =~= b@.take(i as int).push(b@[i as int]));
                assert(c != 0);
            }
            if !in_sub {
                if c == NAME_DELIM {
                    let ghost old_names = segment_views(names@);
                    let ghost old_cur = cur@;
                    names.push(cur);
                    cur = Vec::new();
                    proof {
                        assert(segment_views(names@) =~= old_names.push(old_cur));
                        lemma_join_names_push(old_names, old_cur);
                        assert(b@.take(i + 1) =~= join_names(segment_views(names@))
                            + seq![NAME_DELIM] + cur@);
                    }
                } else if c == SUBNAME_DELIM {
                    let ghost old_names = segment_views(names@);
                    let ghost old_cur = cur@;
                    names.push(cur);
                    cur = Vec::new();
                    in_sub = true;
                    proof {
                        assert(segment_views(names@) =~= old_names.push(old_cur));
                        lemma_join_names_push(old_names, old_cur);
                        assert(b@.take(i + 1) =~= join_names(segment_views(names@))
                            + join_subnames(segment_views(subnames@)) + seq![SUBNAME_DELIM]
                            + cur@);
                    }
                } else {
                    cur.push(c);
                    proof {
                        if names@.len() == 0 {
                            assert(b@.take(i + 1) =~= cur@);
                        } else {
                            assert(b@.take(i + 1) =~= join_names(segment_views(names@))
                                + seq![NAME_DELIM] + cur@);
                        }
                    }
                }
            } else {
                if c == SUBNAME_DELIM {
                    let ghost old_subs = segment_views(subnames@);
                    let ghost old_cur = cur@;
                    subnames.push(cur);
                    cur = Vec::new();
                    proof {
                        assert(segment_views(subnames@) =~= old_subs.push(old_cur));
                        lemma_join_subnames_push(old_subs, old_cur);
                        assert(b@.take(i + 1) =~= join_names(segment_views(names@))
                            + join_subnames(segment_views(subnames@)) + seq![SUBNAME_DELIM]
                            + cur@);
                    }
                } else {
                    cur.push(c);
                    proof {
                        assert(b@.take(i + 1) =~= join_names(segment_views(names@))
                            + join_subnames(segment_views(subnames@)) + seq![SUBNAME_DELIM]
                            + cur@);
                    }
                }
            }
            i = i + 1;
        }
        proof {
            assert(b@.take(i as int) =~= b@);
        }
        if !in_sub {
            let ghost old_names = segment_views(names@);
            let ghost old_cur = cur@;
            names.push(cur);
            let r = SegmentedPath { names, subnames };
            proof {
                assert(r.names_view() =~= old_names.push(old_cur));
                lemma_join_names_push(old_names, old_cur);
                assert(r.subnames_view() =~= Seq::<Seq<u8>>::empty());
                assert(r.content() =~= b@);
            }
            r
        } else {
            let ghost old_subs = segment_views(subnames@);
            let ghost old_cur = cur@;
            subnames.push(cur);
            let r = SegmentedPath { names, subnames };
            proof {
                assert(r.subnames_view() =~= old_subs.push(old_cur));
                lemma_join_subnames_push(old_subs, old_cur);
                assert(r.content() =~= b@);
            }
            r
        }
    }

    /// Decomposes the given bytes, truncating at the first null byte
    /// before scanning for delimiters.
    pub fn from_bytes(b: &[u8]) -> (r: SegmentedPath)
        ensures
            r.wf(),
            r.content() == truncated(b@),
    {
        let t = truncate_at_null(b);
        SegmentedPath::parse_null_free(t.as_slice())
    }

    /// Reinterprets an identity value's content as a path; no validation
    /// beyond delimiter scanning.
    pub fn from_identity(id: &StringIdentity) -> (r: SegmentedPath)
        requires
            id.wf(),
        ensures
            r.wf(),
            r.content() == id@,
    {
        SegmentedPath::parse_null_free(id.as_bytes())
    }

    /// Decomposes a plain text value's content, truncating at the first
    /// null byte.
    pub fn from_plain(p: &PlainString) -> (r: SegmentedPath)
        ensures
            r.wf(),
            r.content() == truncated(p@),
    {
        SegmentedPath::from_bytes(p.as_bytes())
    }

    /// Prints the segments back into one byte vector, delimiters included.
    fn render_bytes(&self) -> (r: Vec<u8>)
        requires
            self.wf(),
        ensures
            r@ == self.content(),
            null_free(r@),
    {
        let ghost nv = self.names_view();
        let ghost sv = self.subnames_view();
        let mut out: Vec<u8> = Vec::new();
        let mut i: usize = 0;
        while i < self.names.len()
            invariant
                self.wf(),
                nv == self.names_view(),
                0 <= i <= self.names@.len(),
                out@ == join_names(nv.take(i as int)),
            decreases self.names@.len() - i,
        {
            proof {
                assert(nv.take(i + 1) =~= nv.take(i as int).push(nv[i as int]));
                lemma_join_names_push(nv.take(i as int), nv[i as int]);
            }
            if i > 0 {
                out.push(NAME_DELIM);
            }
            let ghost before = out@;
            out.extend_from_slice(self.names[i].as_slice());
            proof {
                assert(out@ =~= before + nv[i as int]);
                assert(out@ =~= join_names(nv.take(i + 1)));
            }
            i = i + 1;
        }
        proof {
            assert(nv.take(self.names@.len() as int) =~= nv);
        }
        let mut j: usize = 0;
        while j < self.subnames.len()
            invariant
                self.wf(),
                nv == self.names_view(),
                sv == self.subnames_view(),
                0 <= j <= self.subnames@.len(),
                out@ == join_names(nv) + join_subnames(sv.take(j as int)),
            decreases self.subnames@.len() - j,
        {
            proof {
                assert(sv.take(j + 1) =~= sv.take(j as int).push(sv[j as int]));
                lemma_join_subnames_push(sv.take(j as int), sv[j as int]);
            }
            out.push(SUBNAME_DELIM);
            let ghost before = out@;
            out.extend_from_slice(self.subnames[j].as_slice());
            proof {
                assert(out@ =~= before + sv[j as int]);
                assert(out@ =~= join_names(nv) + join_subnames(sv.take(j + 1)));
            }
            j = j + 1;
        }
        proof {
            assert(sv.take(self.subnames@.len() as int) =~= sv);
            assert(out@ == self.content());
            assert(forall|k: int| 0 <= k < nv.len() ==> null_free(#[trigger] nv[k]));
            assert(forall|k: int| 0 <= k < sv.len() ==> null_free(#[trigger] sv[k]));
            lemma_join_names_null_free(nv);
            lemma_join_subnames_null_free(sv);
        }
        out
    }

    /// Renders the path back into an identity value of the same content.
    pub fn to_identity(&self) -> (r: StringIdentity)
        requires
            self.wf(),
        ensures
            r.wf(),
            r@ == self.content(),
    {
        let bytes = self.render_bytes();
        let r = StringIdentity::from_bytes(bytes.as_slice());
        proof {
            lemma_truncated_of_null_free(self.content());
        }
        r
    }

    /// Renders the path back into a plain text value of the same content.
    pub fn to_plain_string(&self) -> (r: PlainString)
        requires
            self.wf(),
        ensures
            r@ == self.content(),
    {
        let bytes = self.render_bytes();
        PlainString::from_bytes(bytes.as_slice())
    }

    /// Number of name segments.
    pub fn name_count(&self) -> (r: usize)
        ensures
            r == self.names_view().len(),
    {
        self.names.len()
    }

    /// Number of subname segments.
    pub fn subname_count(&self) -> (r: usize)
        ensures
            r == self.subnames_view().len(),
    {
        self.subnames.len()
    }

    /// The `i`-th name segment. The bound is a static contract: callers
    /// must show the index in range.
    pub fn get_name(&self, i: usize) -> (r: StringIdentity)
        requires
            self.wf(),
            i < self.names_view().len(),
        ensures
            r.wf(),
            r@ == self.names_view()[i as int],
    {
        let r = StringIdentity::from_bytes(self.names[i].as_slice());
        proof {
            lemma_truncated_of_null_free(self.names_view()[i as int]);
        }
        r
    }

    /// The `i`-th subname segment, under the same static bound.
    pub fn get_subname(&self, i: usize) -> (r: StringIdentity)
        requires
            self.wf(),
            i < self.subnames_view().len(),
        ensures
            r.wf(),
            r@ == self.subnames_view()[i as int],
    {
        let r = StringIdentity::from_bytes(self.subnames[i].as_slice());
        proof {
            lemma_truncated_of_null_free(self.subnames_view()[i as int]);
        }
        r
    }

    /// The `i`-th name segment, or the empty value when `i` is out of
    /// bounds: the total, sentinel-returning form of [`Self::get_name`].
    pub fn get_name_or_empty(&self, i: usize) -> (r: StringIdentity)
        requires
            self.wf(),
        ensures
            r.wf(),
            r@ == if i < self.names_view().len() {
                self.names_view()[i as int]
            } else {
                Seq::<u8>::empty()
            },
    {
        if i < self.names.len() {
            self.get_name(i)
        } else {
            StringIdentity::empty()
        }
    }

    /// The pair of name and subname segments that a range over the
    /// combined segments selects, after index resolution.
    pub open spec fn subpath_spec(&self, begin: int, end: int) -> (Seq<Seq<u8>>, Seq<Seq<u8>>) {
        let total = self.names_view().len() + self.subnames_view().len();
        let b = resolve_index(begin, total as int);
        let e = resolve_index(end, total as int);
        (
            selected_names(self.names_view(), b, e),
            selected_subnames(self.subnames_view(), self.names_view().len() as int, b, e),
        )
    }

    /// Selects the segments of an already resolved, clamped range.
    fn subpath_resolved(&self, b: i128, e: i128) -> (r: SegmentedPath)
        requires
            self.wf(),
            0 <= b <= self.names_view().len() + self.subnames_view().len(),
            0 <= e <= self.names_view().len() + self.subnames_view().len(),
        ensures
            r.wf(),
            r.names_view() == selected_names(self.names_view(), b as int, e as int),
            r.subnames_view() == selected_subnames(
                self.subnames_view(),
                self.names_view().len() as int,
                b as int,
                e as int,
            ),
    {
        let n = self.names.len();
        let m = self.subnames.len();
        let mut out_names: Vec<Vec<u8>>;
        if b < e && b < n as i128 {
            let nb = b as usize;
            let ne = if e <= n as i128 {
                e as usize
            } else {
                n
            };
            out_names = clone_segment_range(&self.names, nb, ne);
        } else {
            out_names = Vec::new();
            out_names.push(Vec::new());
            proof {
                assert(segment_views(out_names@) =~= seq![Seq::<u8>::empty()]);
            }
        }
        let mut out_subnames: Vec<Vec<u8>> = Vec::new();
        let sb: usize = if b <= n as i128 {
            0
        } else {
            (b - n as i128) as usize
        };
        if (sb as i128) < e - n as i128 {
            let se = (e - n as i128) as usize;
            out_subnames = clone_segment_range(&self.subnames, sb, se);
        } else {
            proof {
                assert(segment_views(out_subnames@) =~= Seq::<Seq<u8>>::empty());
            }
        }
        let r = SegmentedPath { names: out_names, subnames: out_subnames };
        proof {
            assert(r.names_view() == selected_names(self.names_view(), b as int, e as int));
            assert(forall|k: int|
                0 <= k < r.names_view().len() ==> name_ok(#[trigger] r.names_view()[k]));
            assert(forall|k: int|
                0 <= k < r.subnames_view().len() ==> subname_ok(#[trigger] r.subnames_view()[k]));
        }
        r
    }

    /// Selects the segments covered by `begin .. end` over the combined
    /// `name_count() + subname_count()` segments and keeps them under their
    /// own delimiters. Negative indices count from the end; out-of-range
    /// indices are clamped.
    pub fn subpath(&self, begin: i64, end: i64) -> (r: SegmentedPath)
        requires
            self.wf(),
        ensures
            r.wf(),
            r.names_view() == self.subpath_spec(begin as int, end as int).0,
            r.subnames_view() == self.subpath_spec(begin as int, end as int).1,
    {
        let total: i128 = self.names.len() as i128 + self.subnames.len() as i128;
        let mut b: i128 = begin as i128;
        if b < 0 {
            b = b + total;
        }
        if b < 0 {
            b = 0;
        }
        if b > total {
            b = total;
        }
        let mut e: i128 = end as i128;
        if e < 0 {
            e = e + total;
        }
        if e < 0 {
            e = 0;
        }
        if e > total {
            e = total;
        }
        self.subpath_resolved(b, e)
    }

    /// Selects the segments from `begin` (resolved the same way as in
    /// [`Self::subpath`]) to the end of the combined segments.
    pub fn subpath_from(&self, begin: i64) -> (r: SegmentedPath)
        requires
            self.wf(),
        ensures
            r.wf(),
            r.names_view() == self.subpath_spec(
                begin as int,
                (self.names_view().len() + self.subnames_view().len()) as int,
            ).0,
            r.subnames_view() == self.subpath_spec(
                begin as int,
                (self.names_view().len() + self.subnames_view().len()) as int,
            ).1,
    {
        let total: i128 = self.names.len() as i128 + self.subnames.len() as i128;
        let mut b: i128 = begin as i128;
        if b < 0 {
            b = b + total;
        }
        if b < 0 {
            b = 0;
        }
        if b > total {
            b = total;
        }
        self.subpath_resolved(b, total)
    }

    /// The `i`-th subname segment, or the empty value when `i` is out of
    /// bounds.
    pub fn get_subname_or_empty(&self, i: usize) -> (r: StringIdentity)
        requires
            self.wf(),
        ensures
            r.wf(),
            r@ == if i < self.subnames_view().len() {
                self.subnames_view()[i as int]
            } else {
                Seq::<u8>::empty()
            },
    {
        if i < self.subnames.len() {
            self.get_subname(i)
        } else {
            StringIdentity::empty()
        }
    }
}

impl Default for SegmentedPath {
    /// The default path stands for the empty content: one empty name and
    /// no subnames.
    fn default() -> (r: SegmentedPath)
        ensures
            r.wf(),
            r.content() == Seq::<u8>::empty(),
    {
        let mut names: Vec<Vec<u8>> = Vec::new();
        names.push(Vec::new());
        let subnames: Vec<Vec<u8>> = Vec::new();
        let r = SegmentedPath { names, subnames };
        proof {
            assert(r.names_view() =~= seq![Seq::<u8>::empty()]);
            assert(r.subnames_view() =~= Seq::<Seq<u8>>::empty());
            assert(r.content() =~= Seq::<u8>::empty());
        }
        r
    }
}

/// Copies the segments `from .. to` of a segment vector.
fn clone_segment_range(v: &Vec<Vec<u8>>, from: usize, to: usize) -> (r: Vec<Vec<u8>>)
    requires
        from <= to <= v@.len(),
    ensures
        segment_views(r@) == segment_views(v@).subrange(from as int, to as int),
{
    let mut r: Vec<Vec<u8>> = Vec::new();
    let mut k: usize = from;
    while k < to
        invariant
            from <= k <= to <= v@.len(),
            r@.len() == k - from,
            forall|j: int| 0 <= j < r@.len() ==> #[trigger] r@[j]@ == v@[from + j]@,
        decreases to - k,
    {
        let x = v[k].clone();
        proof {
            assert(x@ =~= v@[k as int]@);
        }
        r.push(x);
        k = k + 1;
    }
    proof {
        assert(segment_views(r@) =~= segment_views(v@).subrange(from as int, to as int));
    }
    r
}

/// Copies every segment of a segment vector.
fn clone_segments(v: &Vec<Vec<u8>>) -> (r: Vec<Vec<u8>>)
    ensures
        segment_views(r@) == segment_views(v@),
{
    let r = clone_segment_range(v, 0, v.len());
    proof {
        assert(segment_views(v@).subrange(0, v@.len() as int) =~= segment_views(v@));
    }
    r
}

impl Clone for SegmentedPath {
    /// A clone holds exactly the segments of its source.
    fn clone(&self) -> (r: SegmentedPath)
        ensures
            r.names_view() == self.names_view(),
            r.subnames_view() == self.subnames_view(),
    {
        SegmentedPath { names: clone_segments(&self.names), subnames: clone_segments(
            &self.subnames,
        ) }
    }
}

/// Compares two segment vectors by the byte sequences they hold.
fn segments_eq(a: &Vec<Vec<u8>>, b: &Vec<Vec<u8>>) -> (r: bool)
    ensures
        r == (segment_views(a@) == segment_views(b@)),
{
    if a.len() != b.len() {
        proof {
            assert(segment_views(a@).len() != segment_views(b@).len());
        }
        return false;
    }
    let mut i: usize = 0;
    while i < a.len()
        invariant
            a@.len() == b@.len(),
            0 <= i <= a@.len(),
            forall|k: int| 0 <= k < i ==> #[trigger] a@[k]@ == b@[k]@,
        decreases a@.len() - i,
    {
        let same = a[i] == b[i];
        if !same {
            proof {
                assert(a@[i as int]@ != b@[i as int]@);
                assert(segment_views(a@)[i as int] != segment_views(b@)[i as int]);
            }
            return false;
        }
        proof {
            assert(a@[i as int]@ =~= b@[i as int]@);
        }
        i = i + 1;
    }
    proof {
        assert(segment_views(a@) =~= segment_views(b@));
    }
    true
}

impl PartialEq for SegmentedPath {
    /// Equality is structural over the segments and their kinds.
    fn eq(&self, other: &SegmentedPath) -> (r: bool) {
        segments_eq(&self.names, &other.names) && segments_eq(&self.subnames, &other.subnames)
    }
}

impl Eq for SegmentedPath {

}

impl vstd::std_specs::cmp::PartialEqSpecImpl for SegmentedPath {
    open spec fn obeys_eq_spec() -> bool {
        true
    }

    open spec fn eq_spec(&self, other: &SegmentedPath) -> bool {
        self.names_view() == other.names_view() && self.subnames_view() == other.subnames_view()
    }
}

/// Splitting a concatenation at a common length splits it into equal
/// parts.
proof fn lemma_prefix_suffix_eq(a1: Seq<u8>, b1: Seq<u8>, a2: Seq<u8>, b2: Seq<u8>)
    requires
        a1 + b1 == a2 + b2,
        a1.len() == a2.len(),
    ensures
        a1 == a2,
        b1 == b2,
{
    assert forall|i: int| 0 <= i < a1.len() implies a1[i] == a2[i] by {
        assert((a1 + b1)[i] == a1[i]);
        assert((a2 + b2)[i] == a2[i]);
    }
    assert(a1 =~= a2);
    assert((a1 + b1).len() == a1.len() + b1.len());
    assert((a2 + b2).len() == a2.len() + b2.len());
    assert(b1.len() == b2.len());
    assert forall|i: int| 0 <= i < b1.len() implies b1[i] == b2[i] by {
        assert((a1 + b1)[a1.len() + i] == b1[i]);
        assert((a2 + b2)[a2.len() + i] == b2[i]);
    }
    assert(b1 =~= b2);
}

/// Joined names contain no subname delimiter.
proof fn lemma_join_names_no_subname_delim(parts: Seq<Seq<u8>>)
    requires
        forall|k: int| 0 <= k < parts.len() ==> name_ok(#[trigger] parts[k]),
    ensures
        forall|i: int| 0 <= i < join_names(parts).len() ==> join_names(parts)[i] != SUBNAME_DELIM,
    decreases parts.len(),
{
    let j = join_names(parts);
    if parts.len() == 0 {
    } else if parts.len() == 1 {
        assert(name_ok(parts[0]));
        assert forall|i: int| 0 <= i < j.len() implies j[i] != SUBNAME_DELIM by {
            assert(j[i] == parts[0][i]);
        }
    } else {
        assert(forall|k: int|
            0 <= k < parts.skip(1).len() ==> name_ok(#[trigger] parts.skip(1)[k]));
        lemma_join_names_no_subname_delim(parts.skip(1));
        let head = parts[0] + seq![NAME_DELIM];
        let rest = join_names(parts.skip(1));
        assert(j == head + rest);
        assert(name_ok(parts[0]));
        assert forall|i: int| 0 <= i < j.len() implies j[i] != SUBNAME_DELIM by {
            assert(j[i] == (head + rest)[i]);
            if i < head.len() {
                assert((head + rest)[i] == head[i]);
                if i < parts[0].len() {
                    assert(head[i] == parts[0][i]);
                } else {
                    assert(head[i] == NAME_DELIM);
                }
            } else {
                assert((head + rest)[i] == rest[i - head.len()]);
            }
        }
    }
}

/// Joining names is injective: delimiter-clean name lists that join to the
/// same bytes are the same lists.
proof fn lemma_join_names_injective(p1: Seq<Seq<u8>>, p2: Seq<Seq<u8>>)
    requires
        p1.len() >= 1,
        p2.len() >= 1,
        forall|k: int| 0 <= k < p1.len() ==> name_ok(#[trigger] p1[k]),
        forall|k: int| 0 <= k < p2.len() ==> name_ok(#[trigger] p2[k]),
        join_names(p1) == join_names(p2),
    ensures
        p1 == p2,
    decreases p1.len(),
{
    let j = join_names(p1);
    let l1 = p1[0].len() as int;
    let l2 = p2[0].len() as int;
    if p1.len() == 1 && p2.len() == 1 {
        assert(p1[0] == j && p2[0] == j);
        assert(p1 =~= p2);
    } else if p1.len() == 1 {
        let head = p2[0] + seq![NAME_DELIM];
        let rest = join_names(p2.skip(1));
        assert(j == head + rest);
        assert((head + rest)[l2] == head[l2]);
        assert(head[l2] == NAME_DELIM);
        assert(j == p1[0]);
        assert(name_ok(p1[0]));
        assert(false);
    } else if p2.len() == 1 {
        let head = p1[0] + seq![NAME_DELIM];
        let rest = join_names(p1.skip(1));
        assert(j == head + rest);
        assert((head + rest)[l1] == head[l1]);
        assert(head[l1] == NAME_DELIM);
        assert(j == p2[0]);
        assert(name_ok(p2[0]));
        assert(false);
    } else {
        let head1 = p1[0] + seq![NAME_DELIM];
        let rest1 = join_names(p1.skip(1));
        let head2 = p2[0] + seq![NAME_DELIM];
        let rest2 = join_names(p2.skip(1));
        assert(j == head1 + rest1);
        assert(j == head2 + rest2);
        if l1 < l2 {
            assert((head1 + rest1)[l1] == head1[l1]);
            assert(head1[l1] == NAME_DELIM);
            assert((head2 + rest2)[l1] == head2[l1]);
            assert(head2[l1] == p2[0][l1]);
            assert(name_ok(p2[0]));
            assert(false);
        }
        if l2 < l1 {
            assert((head2 + rest2)[l2] == head2[l2]);
            assert(head2[l2] == NAME_DELIM);
            assert((head1 + rest1)[l2] == head1[l2]);
            assert(head1[l2] == p1[0][l2]);
            assert(name_ok(p1[0]));
            assert(false);
        }
        assert(l1 == l2);
        lemma_prefix_suffix_eq(head1, rest1, head2, rest2);
        lemma_prefix_suffix_eq(p1[0], seq![NAME_DELIM], p2[0], seq![NAME_DELIM]);
        assert(forall|k: int|
            0 <= k < p1.skip(1).len() ==> name_ok(#[trigger] p1.skip(1)[k]));
        assert(forall|k: int|
            0 <= k < p2.skip(1).len() ==> name_ok(#[trigger] p2.skip(1)[k]));
        lemma_join_names_injective(p1.skip(1), p2.skip(1));
        assert forall|k: int| 0 <= k < p1.len() implies p1[k] == p2[k] by {
            if k > 0 {
                assert(p1.skip(1)[k - 1] == p1[k]);
                assert(p2.skip(1)[k - 1] == p2[k]);
            }
        }
        assert(p1 =~= p2);
    }
}

/// Joining subnames is injective: delimiter-clean subname lists that join
/// to the same bytes are the same lists.
proof fn lemma_join_subnames_injective(p1: Seq<Seq<u8>>, p2: Seq<Seq<u8>>)
    requires
        forall|k: int| 0 <= k < p1.len() ==> subname_ok(#[trigger] p1[k]),
        forall|k: int| 0 <= k < p2.len() ==> subname_ok(#[trigger] p2[k]),
        join_subnames(p1) == join_subnames(p2),
    ensures
        p1 == p2,
    decreases p1.len(),
{
    let j = join_subnames(p1);
    if p1.len() == 0 && p2.len() == 0 {
        assert(p1 =~= p2);
    } else if p1.len() == 0 {
        assert(j.len() == 0);
        assert(j == seq![SUBNAME_DELIM] + p2[0] + join_subnames(p2.skip(1)));
        assert(false);
    } else if p2.len() == 0 {
        assert(j == seq![SUBNAME_DELIM] + p1[0] + join_subnames(p1.skip(1)));
        assert(join_subnames(p2).len() == 0);
        assert(false);
    } else {
        let l1 = p1[0].len() as int;
        let l2 = p2[0].len() as int;
        let head1 = seq![SUBNAME_DELIM] + p1[0];
        let rest1 = join_subnames(p1.skip(1));
        let head2 = seq![SUBNAME_DELIM] + p2[0];
        let rest2 = join_subnames(p2.skip(1));
        assert(j == head1 + rest1);
        assert(j == head2 + rest2);
        if l1 < l2 {
            // Right after the shorter first token the content holds either
            // nothing or the next delimiter; inside the longer first token
            // it holds an ordinary byte. Both ways a contradiction.
            assert((head2 + rest2)[1 + l1] == head2[1 + l1]);
            assert(head2[1 + l1] == p2[0][l1]);
            assert(subname_ok(p2[0]));
            if p1.skip(1).len() == 0 {
                assert(rest1.len() == 0);
                assert(j.len() == 1 + l1);
                assert(j.len() >= head2.len());
                assert(false);
            } else {
                assert(rest1 == seq![SUBNAME_DELIM] + p1.skip(1)[0] + join_subnames(
                    p1.skip(1).skip(1),
                ));
                assert((seq![SUBNAME_DELIM] + p1.skip(1)[0] + join_subnames(p1.skip(1).skip(1)))[0]
                    == SUBNAME_DELIM);
                assert((head1 + rest1)[1 + l1] == rest1[0]);
                assert(false);
            }
        }
        if l2 < l1 {
            assert((head1 + rest1)[1 + l2] == head1[1 + l2]);
            assert(head1[1 + l2] == p1[0][l2]);
            assert(subname_ok(p1[0]));
            if p2.skip(1).len() == 0 {
                assert(rest2.len() == 0);
                assert(j.len() == 1 + l2);
                assert(j.len() >= head1.len());
                assert(false);
            } else {
                assert(rest2 == seq![SUBNAME_DELIM] + p2.skip(1)[0] + join_subnames(
                    p2.skip(1).skip(1),
                ));
                assert((seq![SUBNAME_DELIM] + p2.skip(1)[0] + join_subnames(p2.skip(1).skip(1)))[0]
                    == SUBNAME_DELIM);
                assert((head2 + rest2)[1 + l2] == rest2[0]);
                assert(false);
            }
        }
        assert(l1 == l2);
        lemma_prefix_suffix_eq(head1, rest1, head2, rest2);
        lemma_prefix_suffix_eq(seq![SUBNAME_DELIM], p1[0], seq![SUBNAME_DELIM], p2[0]);
        assert(forall|k: int|
            0 <= k < p1.skip(1).len() ==> subname_ok(#[trigger] p1.skip(1)[k]));
        assert(forall|k: int|
            0 <= k < p2.skip(1).len() ==> subname_ok(#[trigger] p2.skip(1)[k]));
        lemma_join_subnames_injective(p1.skip(1), p2.skip(1));
        assert forall|k: int| 0 <= k < p1.len() implies p1[k] == p2[k] by {
            if k > 0 {
                assert(p1.skip(1)[k - 1] == p1[k]);
                assert(p2.skip(1)[k - 1] == p2[k]);
            }
        }
        assert(p1 =~= p2);
    }
}

/// The segment decomposition of given content is unique: two well-formed
/// paths with the same content have the same name and subname segments.
/// Together with the constructors' contracts — which pin each path's
/// content to its source — this pins every accessor's result from the
/// source bytes alone.
pub proof fn lemma_decomposition_unique(p: SegmentedPath, q: SegmentedPath)
    requires
        p.wf(),
        q.wf(),
        p.content() == q.content(),
    ensures
        p.names_view() == q.names_view(),
        p.subnames_view() == q.subnames_view(),
{
    let jn1 = join_names(p.names_view());
    let js1 = join_subnames(p.subnames_view());
    let jn2 = join_names(q.names_view());
    let js2 = join_subnames(q.subnames_view());
    let r = p.content();
    assert(r == jn1 + js1);
    assert(r == jn2 + js2);
    lemma_join_names_no_subname_delim(p.names_view());
    lemma_join_names_no_subname_delim(q.names_view());
    if jn1.len() < jn2.len() {
        assert(js1.len() > 0);
        assert(p.subnames_view().len() > 0);
        assert(js1 == seq![SUBNAME_DELIM] + p.subnames_view()[0] + join_subnames(
            p.subnames_view().skip(1),
        ));
        assert(js1[0] == SUBNAME_DELIM);
        assert((jn1 + js1)[jn1.len() as int] == js1[0]);
        assert((jn2 + js2)[jn1.len() as int] == jn2[jn1.len() as int]);
        assert(false);
    }
    if jn2.len() < jn1.len() {
        assert(js2.len() > 0);
        assert(q.subnames_view().len() > 0);
        assert(js2 == seq![SUBNAME_DELIM] + q.subnames_view()[0] + join_subnames(
            q.subnames_view().skip(1),
        ));
        assert(js2[0] == SUBNAME_DELIM);
        assert((jn2 + js2)[jn2.len() as int] == js2[0]);
        assert((jn1 + js1)[jn2.len() as int] == jn1[jn2.len() as int]);
        assert(false);
    }
    assert(jn1.len() == jn2.len());
    lemma_prefix_suffix_eq(jn1, js1, jn2, js2);
    lemma_join_names_injective(p.names_view(), q.names_view());
    lemma_join_subnames_injective(p.subnames_view(), q.subnames_view());
}

/// Converting an identity value to a segmented path and back is the
/// identity on content.
pub proof fn lemma_path_round_trip(id: StringIdentity, p: SegmentedPath, back: StringIdentity)
    requires
        id.wf(),
        p.content() == id@,
        back@ == p.content(),
    ensures
        back@ == id@,
{
}

} // verus!
