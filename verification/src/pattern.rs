//! Route templates and their matchers. A template is split on `/`; a segment
//! of the form `{name}` captures any run of non-`/` characters (the empty run
//! included), any other segment must match literally. The whole template is
//! matched anchored against the raw URI: same number of segments, each one
//! matching.

use vstd::prelude::*;

use crate::text::str_eq;

verus! {

/// The length of the longest prefix of `s` free of `sep`.
pub open spec fn till(s: Seq<char>, sep: char) -> nat
    decreases s.len(),
{
    if s.len() == 0 {
        0
    } else if s[0] == sep {
        0
    } else {
        1 + till(s.drop_first(), sep)
    }
}

/// `till` finds the first occurrence of `sep`, or the whole length.
pub proof fn lemma_till(s: Seq<char>, sep: char)
    ensures
        till(s, sep) <= s.len(),
        forall|j: int| 0 <= j < till(s, sep) ==> s[j] != sep,
        till(s, sep) < s.len() ==> s[till(s, sep) as int] == sep,
    decreases s.len(),
{
    if s.len() > 0 && s[0] != sep {
        lemma_till(s.drop_first(), sep);
        assert forall|j: int| 0 <= j < till(s, sep) implies s[j] != sep by {
            if j > 0 {
                assert(s[j] == s.drop_first()[j - 1]);
            }
        }
    }
}

/// `till` is pinned down by its characterization: no `sep` before `k`, and
/// `sep` (or the end) at `k`.
pub proof fn lemma_till_is(s: Seq<char>, sep: char, k: int)
    requires
        0 <= k <= s.len(),
        forall|j: int| 0 <= j < k ==> s[j] != sep,
        k < s.len() ==> s[k] == sep,
    ensures
        till(s, sep) == k,
    decreases s.len(),
{
    if s.len() > 0 && s[0] != sep {
        lemma_till_is(s.drop_first(), sep, k - 1);
    }
}

/// The pieces of `s` between occurrences of `sep`. Always at least one
/// piece; splitting the empty sequence gives one empty piece.
pub open spec fn split(s: Seq<char>, sep: char) -> Seq<Seq<char>>
    decreases s.len(),
{
    let k = till(s, sep);
    if k >= s.len() {
        seq![s]
    } else {
        seq![s.take(k as int)] + split(s.skip(k as int + 1), sep)
    }
}

/// The pieces joined back, one `sep` between each two.
pub open spec fn join(pieces: Seq<Seq<char>>, sep: char) -> Seq<char>
    decreases pieces.len(),
{
    if pieces.len() == 0 {
        Seq::empty()
    } else if pieces.len() == 1 {
        pieces[0]
    } else {
        pieces[0] + seq![sep] + join(pieces.drop_first(), sep)
    }
}

/// Splitting yields at least one piece, and no piece contains `sep`.
pub proof fn lemma_split_pieces(s: Seq<char>, sep: char)
    ensures
        split(s, sep).len() >= 1,
        forall|i: int, j: int|
            0 <= i < split(s, sep).len() && 0 <= j < split(s, sep)[i].len() ==> split(
                s,
                sep,
            )[i][j] != sep,
    decreases s.len(),
{
    lemma_till(s, sep);
    let k = till(s, sep);
    if k < s.len() {
        lemma_split_pieces(s.skip(k as int + 1), sep);
        assert forall|i: int, j: int|
            0 <= i < split(s, sep).len() && 0 <= j < split(s, sep)[i].len() implies split(
            s,
            sep,
        )[i][j] != sep by {
            if i == 0 {
            } else {
                assert(split(s, sep)[i] == split(s.skip(k as int + 1), sep)[i - 1]);
            }
        }
    }
}

/// Joining the split of `s` gives `s` back.
pub proof fn lemma_join_split(s: Seq<char>, sep: char)
    ensures
        join(split(s, sep), sep) == s,
    decreases s.len(),
{
    lemma_till(s, sep);
    let k = till(s, sep);
    if k >= s.len() {
        assert(join(seq![s], sep) == s);
    } else {
        let rest = s.skip(k as int + 1);
        lemma_join_split(rest, sep);
        lemma_split_pieces(rest, sep);
        let pieces = split(s, sep);
        assert(pieces.len() >= 2);
        assert(pieces.drop_first() =~= split(rest, sep));
        assert(pieces[0] == s.take(k as int));
        assert(join(pieces, sep) == s.take(k as int) + seq![sep] + rest);
        assert(s.take(k as int) + seq![sep] + rest =~= s);
    }
}

/// Splitting a join gives the pieces back, provided no piece contains `sep`.
pub proof fn lemma_split_join(pieces: Seq<Seq<char>>, sep: char)
    requires
        pieces.len() >= 1,
        forall|i: int, j: int|
            0 <= i < pieces.len() && 0 <= j < pieces[i].len() ==> pieces[i][j] != sep,
    ensures
        split(join(pieces, sep), sep) == pieces,
    decreases pieces.len(),
{
    let s = join(pieces, sep);
    if pieces.len() == 1 {
        lemma_till_is(s, sep, s.len() as int);
        assert(split(s, sep) =~= pieces);
    } else {
        let p0 = pieces[0];
        let rest = pieces.drop_first();
        let rj = join(rest, sep);
        assert(s == p0 + seq![sep] + rj);
        assert forall|j: int| 0 <= j < p0.len() implies s[j] != sep by {
            assert(s[j] == p0[j]);
        }
        assert(s[p0.len() as int] == sep);
        lemma_till_is(s, sep, p0.len() as int);
        assert(s.take(p0.len() as int) =~= p0);
        assert(s.skip(p0.len() as int + 1) =~= rj);
        assert forall|i: int, j: int|
            0 <= i < rest.len() && 0 <= j < rest[i].len() implies rest[i][j] != sep by {
            assert(rest[i] == pieces[i + 1]);
        }
        lemma_split_join(rest, sep);
        assert(split(s, sep) =~= pieces);
    }
}

/// One compiled segment of a route template.
pub ghost enum SegView {
    /// Must equal the URI's segment at the same position.
    Literal(Seq<char>),
    /// Captures the URI's segment at the same position under this name.
    Param(Seq<char>),
}

/// A template segment of the form `{name}`.
pub open spec fn seg_is_placeholder(s: Seq<char>) -> bool {
    s.len() >= 2 && s[0] == '{' && s[s.len() - 1] == '}'
}

/// A template segment that opens a placeholder without closing it.
pub open spec fn seg_malformed(s: Seq<char>) -> bool {
    s.len() >= 1 && s[0] == '{' && !seg_is_placeholder(s)
}

/// What one template segment compiles to.
pub open spec fn seg_compile(s: Seq<char>) -> SegView {
    if seg_is_placeholder(s) {
        SegView::Param(s.subrange(1, s.len() - 1))
    } else {
        SegView::Literal(s)
    }
}

/// A template is well formed when no segment opens a placeholder without
/// closing it. A malformed template is a route-registration error and must
/// be rejected before the server starts serving.
pub open spec fn template_wf(t: Seq<char>) -> bool {
    forall|i: int| 0 <= i < split(t, '/').len() ==> !seg_malformed(split(t, '/')[i])
}

/// What a whole template compiles to.
pub open spec fn compile(t: Seq<char>) -> Seq<SegView> {
    Seq::new(split(t, '/').len(), |i: int| seg_compile(split(t, '/')[i]))
}

/// Whether one compiled segment accepts one URI segment.
pub open spec fn seg_matches(seg: SegView, u: Seq<char>) -> bool {
    match seg {
        SegView::Literal(l) => u == l,
        SegView::Param(_) => true,
    }
}

/// Whether a compiled template accepts a URI: same number of segments,
/// each accepted at its position.
pub open spec fn segs_match(segs: Seq<SegView>, uri: Seq<char>) -> bool {
    let u = split(uri, '/');
    u.len() == segs.len() && (forall|i: int| 0 <= i < segs.len() ==> seg_matches(segs[i], u[i]))
}

/// The captures of a match, in placeholder order: each placeholder paired
/// with the URI segment standing at its position.
pub open spec fn caps(segs: Seq<SegView>, usegs: Seq<Seq<char>>) -> Seq<(Seq<char>, Seq<char>)>
    decreases segs.len(),
{
    if segs.len() == 0 {
        Seq::empty()
    } else {
        match segs[0] {
            SegView::Param(n) => seq![(n, usegs[0])] + caps(segs.drop_first(), usegs.drop_first()),
            SegView::Literal(_) => caps(segs.drop_first(), usegs.drop_first()),
        }
    }
}

/// The captures a URI yields against a compiled template.
pub open spec fn captures_spec(segs: Seq<SegView>, uri: Seq<char>) -> Seq<(Seq<char>, Seq<char>)> {
    caps(segs, split(uri, '/'))
}

/// How many placeholders a compiled template holds.
pub open spec fn num_params(segs: Seq<SegView>) -> nat
    decreases segs.len(),
{
    if segs.len() == 0 {
        0
    } else {
        (match segs[0] {
            SegView::Param(_) => 1 as nat,
            SegView::Literal(_) => 0 as nat,
        }) + num_params(segs.drop_first())
    }
}

/// The placeholder names of a compiled template, in order.
pub open spec fn param_names(segs: Seq<SegView>) -> Seq<Seq<char>>
    decreases segs.len(),
{
    if segs.len() == 0 {
        Seq::empty()
    } else {
        match segs[0] {
            SegView::Param(n) => seq![n] + param_names(segs.drop_first()),
            SegView::Literal(_) => param_names(segs.drop_first()),
        }
    }
}

/// The URI segments obtained by substituting `vals`, one value per
/// placeholder in order, into a compiled template.
pub open spec fn instantiate(segs: Seq<SegView>, vals: Seq<Seq<char>>) -> Seq<Seq<char>>
    decreases segs.len(),
{
    if segs.len() == 0 {
        Seq::empty()
    } else {
        match segs[0] {
            SegView::Literal(l) => seq![l] + instantiate(segs.drop_first(), vals),
            SegView::Param(_) => seq![vals[0]] + instantiate(
                segs.drop_first(),
                vals.drop_first(),
            ),
        }
    }
}

/// Names and values paired up positionally.
pub open spec fn zip_pairs(names: Seq<Seq<char>>, vals: Seq<Seq<char>>) -> Seq<
    (Seq<char>, Seq<char>),
> {
    Seq::new(names.len(), |i: int| (names[i], vals[i]))
}

/// No literal segment contains a `/`. Every template compiled by
/// `PathPattern` satisfies this, its segments being split on `/`.
pub open spec fn literals_slashless(segs: Seq<SegView>) -> bool {
    forall|i: int, j: int|
        0 <= i < segs.len() && segs[i] is Literal && 0 <= j < segs[i]->Literal_0.len()
            ==> segs[i]->Literal_0[j] != '/'
}

/// There are as many placeholder names as placeholders.
pub proof fn lemma_param_names_len(segs: Seq<SegView>)
    ensures
        param_names(segs).len() == num_params(segs),
    decreases segs.len(),
{
    if segs.len() > 0 {
        lemma_param_names_len(segs.drop_first());
    }
}

/// Substituting values into a template gives one URI segment per template
/// segment: literals stay, placeholders take their value, and the captures
/// of the result are exactly the names zipped with the values.
proof fn lemma_instantiate(segs: Seq<SegView>, vals: Seq<Seq<char>>)
    requires
        vals.len() == num_params(segs),
        literals_slashless(segs),
        forall|i: int, j: int| 0 <= i < vals.len() && 0 <= j < vals[i].len() ==> vals[i][j] != '/',
    ensures
        instantiate(segs, vals).len() == segs.len(),
        forall|i: int|
            0 <= i < segs.len() ==> seg_matches(segs[i], instantiate(segs, vals)[i]),
        caps(segs, instantiate(segs, vals)) == zip_pairs(param_names(segs), vals),
        forall|i: int, j: int|
            0 <= i < instantiate(segs, vals).len() && 0 <= j < instantiate(segs, vals)[i].len()
                ==> instantiate(segs, vals)[i][j] != '/',
    decreases segs.len(),
{
    lemma_param_names_len(segs);
    if segs.len() == 0 {
        assert(caps(segs, instantiate(segs, vals)) =~= zip_pairs(param_names(segs), vals));
    } else {
        let rest = segs.drop_first();
        let inst = instantiate(segs, vals);
        assert forall|i: int, j: int|
            0 <= i < rest.len() && rest[i] is Literal && 0 <= j
                < rest[i]->Literal_0.len() implies rest[i]->Literal_0[j] != '/' by {
            assert(rest[i] == segs[i + 1]);
        }
        match segs[0] {
            SegView::Literal(l) => {
                lemma_instantiate(rest, vals);
                let rinst = instantiate(rest, vals);
                assert(inst == seq![l] + rinst);
                assert(inst.drop_first() =~= rinst);
                assert forall|i: int| 0 <= i < segs.len() implies seg_matches(
                    segs[i],
                    inst[i],
                ) by {
                    if i > 0 {
                        assert(segs[i] == rest[i - 1] && inst[i] == rinst[i - 1]);
                    }
                }
                assert(caps(segs, inst) == caps(rest, rinst));
                assert(param_names(segs) == param_names(rest));
                assert forall|i: int, j: int|
                    0 <= i < inst.len() && 0 <= j < inst[i].len() implies inst[i][j] != '/' by {
                    if i == 0 {
                        assert(inst[0] == l && segs[0] is Literal);
                    } else {
                        assert(inst[i] == rinst[i - 1]);
                    }
                }
            },
            SegView::Param(n) => {
                let rvals = vals.drop_first();
                assert forall|i: int, j: int|
                    0 <= i < rvals.len() && 0 <= j < rvals[i].len() implies rvals[i][j]
                    != '/' by {
                    assert(rvals[i] == vals[i + 1]);
                }
                lemma_instantiate(rest, rvals);
                let rinst = instantiate(rest, rvals);
                assert(inst == seq![vals[0]] + rinst);
                assert(inst.drop_first() =~= rinst);
                assert forall|i: int| 0 <= i < segs.len() implies seg_matches(
                    segs[i],
                    inst[i],
                ) by {
                    if i > 0 {
                        assert(segs[i] == rest[i - 1] && inst[i] == rinst[i - 1]);
                    }
                }
                lemma_param_names_len(rest);
                assert(caps(segs, inst) == seq![(n, vals[0])] + caps(rest, rinst));
                assert(param_names(segs) == seq![n] + param_names(rest));
                assert(caps(segs, inst) =~= zip_pairs(param_names(segs), vals));
                assert forall|i: int, j: int|
                    0 <= i < inst.len() && 0 <= j < inst[i].len() implies inst[i][j] != '/' by {
                    if i == 0 {
                        assert(inst[0] == vals[0]);
                    } else {
                        assert(inst[i] == rinst[i - 1]);
                    }
                }
            },
        }
    }
}

/// The literal segments of a compiled template contain no `/`.
pub proof fn lemma_compile_literals_slashless(t: Seq<char>)
    ensures
        literals_slashless(compile(t)),
{
    lemma_split_pieces(t, '/');
    assert forall|i: int, j: int|
        0 <= i < compile(t).len() && compile(t)[i] is Literal && 0 <= j
            < compile(t)[i]->Literal_0.len() implies compile(t)[i]->Literal_0[j] != '/' by {
        assert(compile(t)[i] == seg_compile(split(t, '/')[i]));
    }
}

/// Matching an instantiated URI: a URI built by substituting one non-`/`
/// value per placeholder into a template matches that template, and the
/// captures are exactly the placeholder names paired with those values,
/// in placeholder order.
pub proof fn lemma_match_instantiated(segs: Seq<SegView>, vals: Seq<Seq<char>>)
    requires
        segs.len() >= 1,
        literals_slashless(segs),
        vals.len() == num_params(segs),
        forall|i: int, j: int| 0 <= i < vals.len() && 0 <= j < vals[i].len() ==> vals[i][j] != '/',
    ensures
        segs_match(segs, join(instantiate(segs, vals), '/')),
        captures_spec(segs, join(instantiate(segs, vals), '/')) == zip_pairs(
            param_names(segs),
            vals,
        ),
        zip_pairs(param_names(segs), vals).len() == num_params(segs),
{
    lemma_param_names_len(segs);
    lemma_instantiate(segs, vals);
    let inst = instantiate(segs, vals);
    lemma_split_join(inst, '/');
}

/// All segments of a template without placeholders are literal.
proof fn lemma_num_params_zero(segs: Seq<SegView>)
    requires
        num_params(segs) == 0,
    ensures
        forall|i: int| 0 <= i < segs.len() ==> segs[i] is Literal,
    decreases segs.len(),
{
    if segs.len() > 0 {
        lemma_num_params_zero(segs.drop_first());
        assert forall|i: int| 0 <= i < segs.len() implies segs[i] is Literal by {
            if i > 0 {
                assert(segs[i] == segs.drop_first()[i - 1]);
            }
        }
    }
}

/// A template without placeholders matches exactly the byte-identical URI.
pub proof fn lemma_zero_params_exact(t: Seq<char>, uri: Seq<char>)
    requires
        num_params(compile(t)) == 0,
    ensures
        segs_match(compile(t), uri) <==> uri == t,
{
    let segs = compile(t);
    lemma_num_params_zero(segs);
    if segs_match(segs, uri) {
        assert forall|i: int| 0 <= i < segs.len() implies split(uri, '/')[i] == split(
            t,
            '/',
        )[i] by {
            assert(seg_matches(segs[i], split(uri, '/')[i]));
            assert(segs[i] == seg_compile(split(t, '/')[i]));
        }
        assert(split(uri, '/') =~= split(t, '/'));
        lemma_join_split(uri, '/');
        lemma_join_split(t, '/');
    }
    if uri == t {
        assert forall|i: int| 0 <= i < segs.len() implies seg_matches(
            segs[i],
            split(uri, '/')[i],
        ) by {
            assert(segs[i] == seg_compile(split(t, '/')[i]));
        }
    }
}

/// One compiled segment as stored: literal text or a placeholder name.
pub enum Segment {
    Literal(String),
    Param(String),
}

impl View for Segment {
    type V = SegView;

    open spec fn view(&self) -> SegView {
        match self {
            Segment::Literal(s) => SegView::Literal(s@),
            Segment::Param(s) => SegView::Param(s@),
        }
    }
}

/// The error for a malformed route template.
#[derive(Clone, Copy, PartialEq, Eq, Structural, Debug)]
pub struct PatternConstructionError;

/// A compiled route template: an anchored matcher over URI segments that
/// either rejects a URI or yields its captures in placeholder order.
pub struct PathPattern {
    segs: Vec<Segment>,
}

impl View for PathPattern {
    type V = Seq<SegView>;

    closed spec fn view(&self) -> Seq<SegView> {
        Seq::new(self.segs@.len(), |i: int| self.segs@[i]@)
    }
}

/// Splits a string on `/` into its pieces.
pub fn split_slash(s: &str) -> (r: Vec<String>)
    ensures
        r.deep_view() == split(s@, '/'),
{
    let n = s.unicode_len();
    let mut r: Vec<String> = Vec::new();
    let mut start: usize = 0;
    let mut i: usize = 0;
    proof {
        assert(s@.skip(0) =~= s@);
        assert(r.deep_view() + split(s@, '/') =~= split(s@, '/'));
    }
    while i < n
        invariant
            0 <= start <= i <= n == s@.len(),
            forall|j: int| start <= j < i ==> s@[j] != '/',
            split(s@, '/') == r.deep_view() + split(s@.skip(start as int), '/'),
        decreases n - i,
    {
        if s.get_char(i) == '/' {
            let ghost old_dv = r.deep_view();
            let ghost suffix = s@.skip(start as int);
            let piece = s.substring_char(start, i).to_owned();
            r.push(piece);
            proof {
                assert forall|j: int| 0 <= j < i - start implies suffix[j] != '/' by {
                    assert(suffix[j] == s@[start + j]);
                }
                assert(suffix[i - start] == s@[i as int]);
                lemma_till_is(suffix, '/', i - start);
                assert(suffix.take(i - start) =~= s@.subrange(start as int, i as int));
                assert(suffix.skip(i - start + 1) =~= s@.skip(i + 1 as int));
                assert(split(suffix, '/') == seq![s@.subrange(start as int, i as int)] + split(
                    s@.skip(i + 1 as int),
                    '/',
                ));
                assert(r.deep_view() =~= old_dv.push(piece@));
                assert(r.deep_view() + split(s@.skip(i + 1 as int), '/') =~= old_dv + split(
                    suffix,
                    '/',
                ));
            }
            start = i + 1;
        }
        i = i + 1;
    }
    let ghost old_dv = r.deep_view();
    let ghost suffix = s@.skip(start as int);
    let piece = s.substring_char(start, n).to_owned();
    r.push(piece);
    proof {
        assert forall|j: int| 0 <= j < suffix.len() implies suffix[j] != '/' by {
            assert(suffix[j] == s@[start + j]);
        }
        lemma_till_is(suffix, '/', suffix.len() as int);
        assert(suffix =~= s@.subrange(start as int, n as int));
        assert(split(suffix, '/') == seq![suffix]);
        assert(r.deep_view() =~= old_dv.push(piece@));
        assert(r.deep_view() =~= old_dv + split(suffix, '/'));
    }
    r
}

/// Extending both sides by one segment extends the captures by that
/// segment's contribution.
proof fn lemma_caps_push(segs: Seq<SegView>, usegs: Seq<Seq<char>>, x: SegView, y: Seq<char>)
    requires
        segs.len() == usegs.len(),
    ensures
        caps(segs.push(x), usegs.push(y)) == caps(segs, usegs) + (match x {
            SegView::Param(n) => seq![(n, y)],
            SegView::Literal(_) => Seq::<(Seq<char>, Seq<char>)>::empty(),
        }),
    decreases segs.len(),
{
    let sp = segs.push(x);
    let up = usegs.push(y);
    let delta = (match x {
        SegView::Param(n) => seq![(n, y)],
        SegView::Literal(_) => Seq::<(Seq<char>, Seq<char>)>::empty(),
    });
    assert(sp[0] == if segs.len() == 0 { x } else { segs[0] });
    assert(up[0] == if usegs.len() == 0 { y } else { usegs[0] });
    if segs.len() == 0 {
        assert(sp.drop_first() =~= Seq::<SegView>::empty());
        assert(up.drop_first() =~= Seq::<Seq<char>>::empty());
        match x {
            SegView::Param(n) => {
                assert(caps(sp, up) == seq![(n, y)] + caps(sp.drop_first(), up.drop_first()));
                assert(caps(sp, up) =~= caps(segs, usegs) + delta);
            },
            SegView::Literal(_) => {
                assert(caps(sp, up) =~= caps(segs, usegs) + delta);
            },
        }
    } else {
        assert(sp.drop_first() =~= segs.drop_first().push(x));
        assert(up.drop_first() =~= usegs.drop_first().push(y));
        lemma_caps_push(segs.drop_first(), usegs.drop_first(), x, y);
        match segs[0] {
            SegView::Param(n) => {
                assert(caps(sp, up) == seq![(n, usegs[0])] + caps(sp.drop_first(), up.drop_first()));
                assert(caps(segs, usegs) == seq![(n, usegs[0])] + caps(
                    segs.drop_first(),
                    usegs.drop_first(),
                ));
                assert(caps(sp, up) =~= caps(segs, usegs) + delta);
            },
            SegView::Literal(_) => {
                assert(caps(sp, up) =~= caps(segs, usegs) + delta);
            },
        }
    }
}

impl PathPattern {
    /// Compiles a route template. Succeeds exactly on well-formed templates;
    /// a segment that opens a placeholder without closing it is rejected.
    pub fn new(template: &str) -> (r: Result<PathPattern, PatternConstructionError>)
        ensures
            r is Ok <==> template_wf(template@),
            r is Ok ==> r->Ok_0@ == compile(template@),
    {
        let pieces = split_slash(template);
        let ghost dv = split(template@, '/');
        let mut segs: Vec<Segment> = Vec::new();
        let mut idx: usize = 0;
        while idx < pieces.len()
            invariant
                0 <= idx <= pieces.len(),
                pieces.deep_view() == dv,
                dv == split(template@, '/'),
                forall|j: int| 0 <= j < idx ==> !seg_malformed(dv[j]),
                segs@.len() == idx,
                forall|j: int| 0 <= j < idx ==> segs@[j]@ == seg_compile(dv[j]),
            decreases pieces.len() - idx,
        {
            let p = pieces[idx].as_str();
            proof {
                assert(p@ == dv[idx as int]);
            }
            let plen = p.unicode_len();
            if plen >= 1 && p.get_char(0) == '{' {
                if plen >= 2 && p.get_char(plen - 1) == '}' {
                    let name = p.substring_char(1, plen - 1).to_owned();
                    segs.push(Segment::Param(name));
                } else {
                    proof {
                        assert(seg_malformed(dv[idx as int]));
                    }
                    return Err(PatternConstructionError);
                }
            } else {
                segs.push(Segment::Literal(pieces[idx].clone()));
            }
            idx = idx + 1;
        }
        let result = PathPattern { segs };
        proof {
            assert(result@ =~= compile(template@));
        }
        Ok(result)
    }

    /// Matches a URI against this pattern. On a match, yields the captures
    /// as (name, value) pairs in placeholder order; otherwise nothing —
    /// a non-match is routine control flow, not an error.
    pub fn captures(&self, uri: &str) -> (r: Option<Vec<(String, String)>>)
        ensures
            r is Some <==> segs_match(self@, uri@),
            r is Some ==> r->Some_0.deep_view() == captures_spec(self@, uri@),
    {
        let usegs = split_slash(uri);
        let ghost dv = split(uri@, '/');
        if usegs.len() != self.segs.len() {
            return None;
        }
        let mut out: Vec<(String, String)> = Vec::new();
        let mut i: usize = 0;
        while i < self.segs.len()
            invariant
                0 <= i <= self.segs@.len() == usegs@.len(),
                usegs.deep_view() == dv,
                dv == split(uri@, '/'),
                forall|j: int| 0 <= j < i ==> seg_matches(self@[j], dv[j]),
                out.deep_view() == caps(self@.take(i as int), dv.take(i as int)),
            decreases self.segs@.len() - i,
        {
            let ghost out_before = out.deep_view();
            match &self.segs[i] {
                Segment::Literal(l) => {
                    if !str_eq(l.as_str(), usegs[i].as_str()) {
                        proof {
                            assert(!seg_matches(self@[i as int], dv[i as int]));
                        }
                        return None;
                    }
                },
                Segment::Param(n) => {
                    out.push((n.clone(), usegs[i].clone()));
                    proof {
                        assert(out.deep_view() =~= out_before.push((n@, dv[i as int])));
                    }
                },
            }
            proof {
                lemma_caps_push(self@.take(i as int), dv.take(i as int), self@[i as int], dv[i as int]);
                assert(self@.take(i + 1) =~= self@.take(i as int).push(self@[i as int]));
                assert(dv.take(i + 1) =~= dv.take(i as int).push(dv[i as int]));
                assert(out.deep_view() =~= caps(self@.take(i + 1), dv.take(i + 1)));
            }
            i = i + 1;
        }
        proof {
            assert(self@.take(i as int) =~= self@);
            assert(dv.take(i as int) =~= dv);
        }
        Some(out)
    }
}

/// Whether a route template is well formed; the executable check that a
/// caller makes before registering the route.
pub fn template_well_formed(template: &str) -> (r: bool)
    ensures
        r == template_wf(template@),
{
    match PathPattern::new(template) {
        Ok(_) => true,
        Err(_) => false,
    }
}

} // verus!
