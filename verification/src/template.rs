//! The commit-metadata templating engine. Project files carry
//! `ConfiguredValue` attributes in two forms. An *unresolved* tag asks for a
//! tracked value by name:
//! `<ConfigurableMethodTerminal ConfiguredValue="{EV3DIFFER hash}">`.
//! A *resolved* tag holds a literal value and is followed by a marker comment
//! recording which tracked kind produced it:
//! `<ConfigurableMethodTerminal ConfiguredValue="abcdef1"> <!-- EV3DIFFER track hash -->`.
//! `stamp_template_requests` turns unresolved tags into resolved ones by
//! appending the marker; `resolve_template` rewrites every resolved tag's
//! value from a commit snapshot, so repeated sessions refresh values in place
//! instead of re-triggering substitution.

use vstd::prelude::*;

verus! {

// ---------------------------------------------------------------------------
// Character classes
// ---------------------------------------------------------------------------

/// Whitespace, as the tag grammar accepts it between tokens.
pub open spec fn is_ws(c: char) -> bool {
    c == ' ' || c == '\t' || c == '\n' || c == '\r'
}

/// A lower-case letter; marker comments name their tracked kind in these.
pub open spec fn is_lower(c: char) -> bool {
    'a' <= c && c <= 'z'
}

/// A character that may stand inside an attribute's value. A quote would end
/// the attribute, a newline never occurs inside one, and a raw `<` cannot
/// stand in an attribute value.
pub open spec fn is_value_char(c: char) -> bool {
    c != '"' && c != '\n' && c != '<'
}

/// A character that may stand inside a driver invocation's kind argument,
/// which runs up to the closing brace.
pub open spec fn is_kindx_char(c: char) -> bool {
    c != '}' && c != '"' && c != '\n' && c != '<'
}

// ---------------------------------------------------------------------------
// Literal tokens of the tag grammar
// ---------------------------------------------------------------------------

/// The element name that opens every tag.
pub open spec fn lit_terminal() -> Seq<char> {
    "<ConfigurableMethodTerminal"@
}

/// The attribute introducer, up to and including the opening quote.
pub open spec fn lit_attr() -> Seq<char> {
    "ConfiguredValue=\""@
}

/// The closing quote and angle bracket that end the element.
pub open spec fn lit_close() -> Seq<char> {
    "\">"@
}

/// The opening of the marker comment.
pub open spec fn lit_comment_open() -> Seq<char> {
    "<!--"@
}

/// The marker's keyword, up to the kind name.
pub open spec fn lit_track() -> Seq<char> {
    "EV3DIFFER track "@
}

/// The closing of the marker comment.
pub open spec fn lit_comment_close() -> Seq<char> {
    "-->"@
}

/// The driver invocation's opening inside an unresolved attribute value.
pub open spec fn lit_driver() -> Seq<char> {
    "{EV3DIFFER"@
}

/// The driver invocation's closing brace together with the element's end.
pub open spec fn lit_driver_close() -> Seq<char> {
    "}\">"@
}

// ---------------------------------------------------------------------------
// Tracked kinds
// ---------------------------------------------------------------------------

/// The kind naming the commit's formatted local timestamp.
pub open spec fn kind_time() -> Seq<char> {
    "time"@
}

/// The kind naming the head reference's short name.
pub open spec fn kind_name() -> Seq<char> {
    "name"@
}

/// The kind naming the commit's message.
pub open spec fn kind_msg() -> Seq<char> {
    "msg"@
}

/// The kind naming the commit's abbreviated id.
pub open spec fn kind_hash() -> Seq<char> {
    "hash"@
}

/// Whether a marker's kind is one of the four recognized tracked kinds.
pub open spec fn known_kind(k: Seq<char>) -> bool {
    k == kind_time() || k == kind_name() || k == kind_msg() || k == kind_hash()
}

/// The mathematical model of a commit snapshot: the four values read from the
/// repository's head commit for one session.
pub struct SnapshotModel {
    pub time: Seq<char>,
    pub name: Seq<char>,
    pub msg: Seq<char>,
    pub hash: Seq<char>,
}

/// The four values read once per session from the VCS head commit: the
/// formatted local timestamp, the head reference's short name, the commit
/// message, and the 7-character abbreviated commit id.
pub struct CommitSnapshot {
    pub time: Vec<char>,
    pub name: Vec<char>,
    pub msg: Vec<char>,
    pub hash: Vec<char>,
}

impl View for CommitSnapshot {
    type V = SnapshotModel;

    open spec fn view(&self) -> SnapshotModel {
        SnapshotModel { time: self.time@, name: self.name@, msg: self.msg@, hash: self.hash@ }
    }
}

/// The literal that a tracked kind resolves to under a snapshot.
pub open spec fn lookup(s: SnapshotModel, k: Seq<char>) -> Seq<char> {
    if k == kind_time() {
        s.time
    } else if k == kind_name() {
        s.name
    } else if k == kind_msg() {
        s.msg
    } else {
        s.hash
    }
}

/// Resolution fails on a marker whose kind is not a recognized tracked kind:
/// such a marker is corrupted or hand-edited, and the whole pass aborts.
#[derive(Debug)]
pub enum TemplateError {
    UnknownTrackedKind,
}

// ---------------------------------------------------------------------------
// Scanners
// ---------------------------------------------------------------------------

/// The first position at or after `i` that does not hold whitespace.
pub open spec fn ws_end(t: Seq<char>, i: int) -> int
    decreases t.len() - i,
{
    if 0 <= i < t.len() && is_ws(t[i]) {
        ws_end(t, i + 1)
    } else {
        i
    }
}

/// The first position at or after `i` that cannot stand in an attribute value.
pub open spec fn value_end(t: Seq<char>, i: int) -> int
    decreases t.len() - i,
{
    if 0 <= i < t.len() && is_value_char(t[i]) {
        value_end(t, i + 1)
    } else {
        i
    }
}

/// The first position at or after `i` that is not a lower-case letter.
pub open spec fn lower_end(t: Seq<char>, i: int) -> int
    decreases t.len() - i,
{
    if 0 <= i < t.len() && is_lower(t[i]) {
        lower_end(t, i + 1)
    } else {
        i
    }
}

/// The first position at or after `i` that cannot stand in a driver
/// invocation's kind argument.
pub open spec fn kindx_end(t: Seq<char>, i: int) -> int
    decreases t.len() - i,
{
    if 0 <= i < t.len() && is_kindx_char(t[i]) {
        kindx_end(t, i + 1)
    } else {
        i
    }
}

/// Whether the literal `lit` stands in `t` at position `i`.
pub open spec fn has_lit_at(t: Seq<char>, i: int, lit: Seq<char>) -> bool {
    0 <= i && i + lit.len() <= t.len() && t.subrange(i, i + lit.len()) == lit
}

pub proof fn lemma_ws_end(t: Seq<char>, i: int)
    requires
        0 <= i <= t.len(),
    ensures
        i <= ws_end(t, i) <= t.len(),
        forall|j: int| i <= j < ws_end(t, i) ==> is_ws(t[j]),
        ws_end(t, i) < t.len() ==> !is_ws(t[ws_end(t, i)]),
    decreases t.len() - i,
{
    if i < t.len() && is_ws(t[i]) {
        lemma_ws_end(t, i + 1);
    }
}

pub proof fn lemma_value_end(t: Seq<char>, i: int)
    requires
        0 <= i <= t.len(),
    ensures
        i <= value_end(t, i) <= t.len(),
        forall|j: int| i <= j < value_end(t, i) ==> is_value_char(t[j]),
        value_end(t, i) < t.len() ==> !is_value_char(t[value_end(t, i)]),
    decreases t.len() - i,
{
    if i < t.len() && is_value_char(t[i]) {
        lemma_value_end(t, i + 1);
    }
}

pub proof fn lemma_lower_end(t: Seq<char>, i: int)
    requires
        0 <= i <= t.len(),
    ensures
        i <= lower_end(t, i) <= t.len(),
        forall|j: int| i <= j < lower_end(t, i) ==> is_lower(t[j]),
        lower_end(t, i) < t.len() ==> !is_lower(t[lower_end(t, i)]),
    decreases t.len() - i,
{
    if i < t.len() && is_lower(t[i]) {
        lemma_lower_end(t, i + 1);
    }
}

pub proof fn lemma_kindx_end(t: Seq<char>, i: int)
    requires
        0 <= i <= t.len(),
    ensures
        i <= kindx_end(t, i) <= t.len(),
        forall|j: int| i <= j < kindx_end(t, i) ==> is_kindx_char(t[j]),
        kindx_end(t, i) < t.len() ==> !is_kindx_char(t[kindx_end(t, i)]),
    decreases t.len() - i,
{
    if i < t.len() && is_kindx_char(t[i]) {
        lemma_kindx_end(t, i + 1);
    }
}

// ---------------------------------------------------------------------------
// The two tag patterns
// ---------------------------------------------------------------------------

/// Where the parts of a resolved tag stand: the attribute value, the marker's
/// kind, and the position just past the closing `-->`.
pub struct ResolvedShape {
    pub vstart: int,
    pub vend: int,
    pub kstart: int,
    pub kend: int,
    pub end: int,
}

/// Parses a resolved tag at position `i`: the element name, whitespace, the
/// quoted attribute value, then a marker comment naming the tracked kind.
pub open spec fn parse_resolved_at(t: Seq<char>, i: int) -> Option<ResolvedShape> {
    if !has_lit_at(t, i, lit_terminal()) {
        None
    } else {
        let attr_pos = ws_end(t, i + lit_terminal().len());
        if attr_pos == i + lit_terminal().len() || !has_lit_at(t, attr_pos, lit_attr()) {
            None
        } else {
            let vs = attr_pos + lit_attr().len();
            let ve = value_end(t, vs);
            if !has_lit_at(t, ve, lit_close()) {
                None
            } else {
                let copen_pos = ws_end(t, ve + lit_close().len());
                if !has_lit_at(t, copen_pos, lit_comment_open()) {
                    None
                } else {
                    let track_pos = ws_end(t, copen_pos + lit_comment_open().len());
                    if !has_lit_at(t, track_pos, lit_track()) {
                        None
                    } else {
                        let ks = track_pos + lit_track().len();
                        let ke = lower_end(t, ks);
                        if ke == ks {
                            None
                        } else {
                            let close_pos = ws_end(t, ke);
                            if !has_lit_at(t, close_pos, lit_comment_close()) {
                                None
                            } else {
                                Some(
                                    ResolvedShape {
                                        vstart: vs,
                                        vend: ve,
                                        kstart: ks,
                                        kend: ke,
                                        end: close_pos + lit_comment_close().len(),
                                    },
                                )
                            }
                        }
                    }
                }
            }
        }
    }
}

/// Where the parts of an unresolved tag stand: the driver invocation's kind
/// argument and the position just past the closing `}">`.
pub struct UnresolvedShape {
    pub kstart: int,
    pub kend: int,
    pub end: int,
}

/// Parses an unresolved tag at position `i`: the element name, whitespace,
/// and an attribute value that is a driver invocation naming a kind.
pub open spec fn parse_unresolved_at(t: Seq<char>, i: int) -> Option<UnresolvedShape> {
    if !has_lit_at(t, i, lit_terminal()) {
        None
    } else {
        let attr_pos = ws_end(t, i + lit_terminal().len());
        if attr_pos == i + lit_terminal().len() || !has_lit_at(t, attr_pos, lit_attr()) {
            None
        } else {
            let ds = attr_pos + lit_attr().len();
            if !has_lit_at(t, ds, lit_driver()) {
                None
            } else {
                let q = ws_end(t, ds + lit_driver().len());
                if q == ds + lit_driver().len() {
                    None
                } else {
                    let ke = kindx_end(t, q);
                    if !has_lit_at(t, ke, lit_driver_close()) {
                        None
                    } else {
                        Some(UnresolvedShape { kstart: q, kend: ke, end: ke + lit_driver_close().len() })
                    }
                }
            }
        }
    }
}

/// A parsed resolved tag lies inside the text, with its parts in order.
pub proof fn lemma_resolved_shape(t: Seq<char>, i: int, m: ResolvedShape)
    requires
        parse_resolved_at(t, i) == Some(m),
    ensures
        0 <= i,
        i < m.vstart <= m.vend <= m.kstart < m.kend < m.end <= t.len(),
{
    reveal_strlit("<ConfigurableMethodTerminal");
    reveal_strlit("ConfiguredValue=\"");
    reveal_strlit("\">");
    reveal_strlit("<!--");
    reveal_strlit("EV3DIFFER track ");
    reveal_strlit("-->");
    let attr_pos = ws_end(t, i + lit_terminal().len());
    lemma_ws_end(t, i + lit_terminal().len());
    let vs = attr_pos + lit_attr().len();
    lemma_value_end(t, vs);
    let ve = value_end(t, vs);
    let copen_pos = ws_end(t, ve + lit_close().len());
    lemma_ws_end(t, ve + lit_close().len());
    let track_pos = ws_end(t, copen_pos + lit_comment_open().len());
    lemma_ws_end(t, copen_pos + lit_comment_open().len());
    let ks = track_pos + lit_track().len();
    lemma_lower_end(t, ks);
    let ke = lower_end(t, ks);
    lemma_ws_end(t, ke);
}

/// A parsed unresolved tag lies inside the text, with its parts in order.
pub proof fn lemma_unresolved_shape(t: Seq<char>, i: int, m: UnresolvedShape)
    requires
        parse_unresolved_at(t, i) == Some(m),
    ensures
        0 <= i,
        i < m.kstart <= m.kend < m.end <= t.len(),
{
    reveal_strlit("<ConfigurableMethodTerminal");
    reveal_strlit("ConfiguredValue=\"");
    reveal_strlit("{EV3DIFFER");
    reveal_strlit("}\">");
    let attr_pos = ws_end(t, i + lit_terminal().len());
    lemma_ws_end(t, i + lit_terminal().len());
    let ds = attr_pos + lit_attr().len();
    let q = ws_end(t, ds + lit_driver().len());
    lemma_ws_end(t, ds + lit_driver().len());
    lemma_kindx_end(t, q);
}

// ---------------------------------------------------------------------------
// The rewrites
// ---------------------------------------------------------------------------

/// The marker comment recording a tracked kind, with the single space that
/// separates it from the element.
pub open spec fn marker(k: Seq<char>) -> Seq<char> {
    seq![' '] + lit_comment_open() + seq![' '] + lit_track() + k + seq![' '] + lit_comment_close()
}

/// The canonical resolved tag: the element with value `v`, followed by the
/// marker recording kind `k`. Resolution re-emits every matched tag in this
/// form.
pub open spec fn canon(v: Seq<char>, k: Seq<char>) -> Seq<char> {
    lit_terminal() + seq![' '] + lit_attr() + v + lit_close() + marker(k)
}

/// What resolution produces from position `i` on: every resolved tag is
/// re-emitted canonically with its value looked up afresh from the snapshot;
/// everything else is copied; a marker with an unrecognized kind fails the
/// whole pass.
pub open spec fn resolve_from(t: Seq<char>, i: int, s: SnapshotModel) -> Option<Seq<char>>
    decreases t.len() - i,
{
    if i < 0 || i >= t.len() {
        Some(Seq::empty())
    } else {
        match parse_resolved_at(t, i) {
            Some(m) => {
                if i < m.end <= t.len() {
                    let k = t.subrange(m.kstart, m.kend);
                    if known_kind(k) {
                        match resolve_from(t, m.end, s) {
                            Some(rest) => Some(canon(lookup(s, k), k) + rest),
                            None => None,
                        }
                    } else {
                        None
                    }
                } else {
                    None
                }
            },
            None => {
                match resolve_from(t, i + 1, s) {
                    Some(rest) => Some(seq![t[i]] + rest),
                    None => None,
                }
            },
        }
    }
}

/// What stamping produces from position `i` on: every unresolved tag is kept
/// as written and the marker recording its kind argument is appended;
/// everything else is copied.
pub open spec fn stamp_from(t: Seq<char>, i: int) -> Seq<char>
    decreases t.len() - i,
{
    if i < 0 || i >= t.len() {
        Seq::empty()
    } else {
        match parse_unresolved_at(t, i) {
            Some(m) => {
                if i < m.end <= t.len() {
                    t.subrange(i, m.end) + marker(t.subrange(m.kstart, m.kend)) + stamp_from(
                        t,
                        m.end,
                    )
                } else {
                    seq![t[i]] + stamp_from(t, i + 1)
                }
            },
            None => seq![t[i]] + stamp_from(t, i + 1),
        }
    }
}

/// Prepends a committed output prefix to a pass's remaining result.
pub open spec fn opt_concat(p: Seq<char>, o: Option<Seq<char>>) -> Option<Seq<char>> {
    match o {
        Some(rest) => Some(p + rest),
        None => None,
    }
}

// ---------------------------------------------------------------------------
// Executable scanners and matchers
// ---------------------------------------------------------------------------

/// Turns an ASCII string slice into a character vector.
fn str_to_chars(s: &str) -> (r: Vec<char>)
    requires
        s@.len() < usize::MAX,
        vstd::string::is_ascii(s),
    ensures
        r@ == s@,
{
    let n = s.unicode_len();
    let mut r: Vec<char> = Vec::new();
    let mut i: usize = 0;
    while i < n
        invariant
            vstd::string::is_ascii(s),
            n == s@.len(),
            0 <= i <= n,
            r@ == s@.subrange(0, i as int),
        decreases n - i,
    {
        r.push(s.get_char(i));
        assert(r@ =~= s@.subrange(0, i + 1));
        i += 1;
    }
    assert(r@ =~= s@);
    r
}

/// The element name as a character vector.
pub fn lit_terminal_chars() -> (r: Vec<char>)
    ensures
        r@ == lit_terminal(),
{
    proof {
        reveal_strlit("<ConfigurableMethodTerminal");
    }
    str_to_chars("<ConfigurableMethodTerminal")
}

/// The attribute introducer as a character vector.
pub fn lit_attr_chars() -> (r: Vec<char>)
    ensures
        r@ == lit_attr(),
{
    proof {
        reveal_strlit("ConfiguredValue=\"");
    }
    str_to_chars("ConfiguredValue=\"")
}

/// The element's closing as a character vector.
pub fn lit_close_chars() -> (r: Vec<char>)
    ensures
        r@ == lit_close(),
{
    proof {
        reveal_strlit("\">");
    }
    str_to_chars("\">")
}

/// The comment opening as a character vector.
pub fn lit_comment_open_chars() -> (r: Vec<char>)
    ensures
        r@ == lit_comment_open(),
{
    proof {
        reveal_strlit("<!--");
    }
    str_to_chars("<!--")
}

/// The marker keyword as a character vector.
pub fn lit_track_chars() -> (r: Vec<char>)
    ensures
        r@ == lit_track(),
{
    proof {
        reveal_strlit("EV3DIFFER track ");
    }
    str_to_chars("EV3DIFFER track ")
}

/// The comment closing as a character vector.
pub fn lit_comment_close_chars() -> (r: Vec<char>)
    ensures
        r@ == lit_comment_close(),
{
    proof {
        reveal_strlit("-->");
    }
    str_to_chars("-->")
}

/// The driver invocation's opening as a character vector.
pub fn lit_driver_chars() -> (r: Vec<char>)
    ensures
        r@ == lit_driver(),
{
    proof {
        reveal_strlit("{EV3DIFFER");
    }
    str_to_chars("{EV3DIFFER")
}

/// The driver invocation's closing as a character vector.
pub fn lit_driver_close_chars() -> (r: Vec<char>)
    ensures
        r@ == lit_driver_close(),
{
    proof {
        reveal_strlit("}\">");
    }
    str_to_chars("}\">")
}

/// Whitespace test on one character.
fn is_ws_char(c: char) -> (r: bool)
    ensures
        r == is_ws(c),
{
    c == ' ' || c == '\t' || c == '\n' || c == '\r'
}

/// Scans past whitespace.
fn scan_ws(t: &Vec<char>, i: usize) -> (r: usize)
    requires
        i <= t@.len(),
    ensures
        r == ws_end(t@, i as int),
        i <= r <= t@.len(),
{
    let mut j: usize = i;
    while j < t.len() && is_ws_char(t[j])
        invariant
            i <= j <= t@.len(),
            ws_end(t@, i as int) == ws_end(t@, j as int),
        decreases t@.len() - j,
    {
        j += 1;
    }
    j
}

/// Scans past attribute-value characters.
fn scan_value(t: &Vec<char>, i: usize) -> (r: usize)
    requires
        i <= t@.len(),
    ensures
        r == value_end(t@, i as int),
        i <= r <= t@.len(),
{
    let mut j: usize = i;
    while j < t.len() && !(t[j] == '"' || t[j] == '\n' || t[j] == '<')
        invariant
            i <= j <= t@.len(),
            value_end(t@, i as int) == value_end(t@, j as int),
        decreases t@.len() - j,
    {
        j += 1;
    }
    j
}

/// Scans past lower-case letters.
fn scan_lower(t: &Vec<char>, i: usize) -> (r: usize)
    requires
        i <= t@.len(),
    ensures
        r == lower_end(t@, i as int),
        i <= r <= t@.len(),
{
    let mut j: usize = i;
    while j < t.len() && 'a' <= t[j] && t[j] <= 'z'
        invariant
            i <= j <= t@.len(),
            lower_end(t@, i as int) == lower_end(t@, j as int),
        decreases t@.len() - j,
    {
        j += 1;
    }
    j
}

/// Scans past kind-argument characters.
fn scan_kindx(t: &Vec<char>, i: usize) -> (r: usize)
    requires
        i <= t@.len(),
    ensures
        r == kindx_end(t@, i as int),
        i <= r <= t@.len(),
{
    let mut j: usize = i;
    while j < t.len() && !(t[j] == '}' || t[j] == '"' || t[j] == '\n' || t[j] == '<')
        invariant
            i <= j <= t@.len(),
            kindx_end(t@, i as int) == kindx_end(t@, j as int),
        decreases t@.len() - j,
    {
        j += 1;
    }
    j
}

/// Tests whether a literal stands at a position.
fn match_lit(t: &Vec<char>, i: usize, lit: &Vec<char>) -> (r: bool)
    requires
        i <= t@.len(),
    ensures
        r == has_lit_at(t@, i as int, lit@),
{
    if t.len() - i < lit.len() {
        return false;
    }
    let n = t.len();
    let mut j: usize = 0;
    while j < lit.len()
        invariant
            0 <= j <= lit@.len(),
            t@.len() == n,
            i + lit@.len() <= t@.len(),
            forall|x: int| 0 <= x < j ==> t@[i + x] == lit@[x],
        decreases lit@.len() - j,
    {
        if t[i + j] != lit[j] {
            assert(t@.subrange(i as int, i + lit@.len())[j as int] != lit@[j as int]);
            return false;
        }
        j += 1;
    }
    assert(t@.subrange(i as int, i + lit@.len()) =~= lit@);
    true
}

/// Copies a range of a character vector.
fn copy_range(t: &Vec<char>, a: usize, b: usize) -> (r: Vec<char>)
    requires
        a <= b <= t@.len(),
    ensures
        r@ == t@.subrange(a as int, b as int),
{
    let mut r: Vec<char> = Vec::new();
    let mut j: usize = a;
    while j < b
        invariant
            a <= j <= b <= t@.len(),
            r@ == t@.subrange(a as int, j as int),
        decreases b - j,
    {
        r.push(t[j]);
        assert(r@ =~= t@.subrange(a as int, j + 1));
        j += 1;
    }
    r
}

/// Appends one character vector to another.
fn push_chars(out: &mut Vec<char>, src: &Vec<char>)
    ensures
        final(out)@ == old(out)@ + src@,
{
    let mut j: usize = 0;
    while j < src.len()
        invariant
            0 <= j <= src@.len(),
            out@ == old(out)@ + src@.subrange(0, j as int),
        decreases src@.len() - j,
    {
        out.push(src[j]);
        assert(out@ =~= old(out)@ + src@.subrange(0, j + 1));
        j += 1;
    }
    assert(out@ =~= old(out)@ + src@);
}

/// The positions of a resolved tag's parts, as the executable matcher hands
/// them out: value start and end, kind start and end, match end.
pub struct ResolvedAt {
    pub vstart: usize,
    pub vend: usize,
    pub kstart: usize,
    pub kend: usize,
    pub end: usize,
}

/// Matches the resolved pattern at one position.
fn try_parse_resolved(t: &Vec<char>, i: usize) -> (r: Option<ResolvedAt>)
    requires
        i <= t@.len(),
    ensures
        r matches Some(p) ==> parse_resolved_at(t@, i as int) == Some(
            ResolvedShape {
                vstart: p.vstart as int,
                vend: p.vend as int,
                kstart: p.kstart as int,
                kend: p.kend as int,
                end: p.end as int,
            },
        ),
        r is None ==> parse_resolved_at(t@, i as int) is None,
{
    let l_terminal = lit_terminal_chars();
    let l_attr = lit_attr_chars();
    let l_close = lit_close_chars();
    let l_copen = lit_comment_open_chars();
    let l_track = lit_track_chars();
    let l_cclose = lit_comment_close_chars();
    let n = t.len();
    assert(t@.len() == n);
    if !match_lit(t, i, &l_terminal) {
        return None;
    }
    let attr_pos = scan_ws(t, i + l_terminal.len());
    if attr_pos == i + l_terminal.len() || !match_lit(t, attr_pos, &l_attr) {
        return None;
    }
    let vs = attr_pos + l_attr.len();
    let ve = scan_value(t, vs);
    if !match_lit(t, ve, &l_close) {
        return None;
    }
    let copen_pos = scan_ws(t, ve + l_close.len());
    if !match_lit(t, copen_pos, &l_copen) {
        return None;
    }
    let track_pos = scan_ws(t, copen_pos + l_copen.len());
    if !match_lit(t, track_pos, &l_track) {
        return None;
    }
    let ks = track_pos + l_track.len();
    let ke = scan_lower(t, ks);
    if ke == ks {
        return None;
    }
    let close_pos = scan_ws(t, ke);
    if !match_lit(t, close_pos, &l_cclose) {
        return None;
    }
    Some(ResolvedAt { vstart: vs, vend: ve, kstart: ks, kend: ke, end: close_pos + l_cclose.len() })
}

/// The positions of an unresolved tag's parts: kind start and end, match end.
pub struct UnresolvedAt {
    pub kstart: usize,
    pub kend: usize,
    pub end: usize,
}

/// Matches the unresolved pattern at one position.
fn try_parse_unresolved(t: &Vec<char>, i: usize) -> (r: Option<UnresolvedAt>)
    requires
        i <= t@.len(),
    ensures
        r matches Some(p) ==> parse_unresolved_at(t@, i as int) == Some(
            UnresolvedShape { kstart: p.kstart as int, kend: p.kend as int, end: p.end as int },
        ),
        r is None ==> parse_unresolved_at(t@, i as int) is None,
{
    let l_terminal = lit_terminal_chars();
    let l_attr = lit_attr_chars();
    let l_driver = lit_driver_chars();
    let l_dclose = lit_driver_close_chars();
    let n = t.len();
    assert(t@.len() == n);
    if !match_lit(t, i, &l_terminal) {
        return None;
    }
    let attr_pos = scan_ws(t, i + l_terminal.len());
    if attr_pos == i + l_terminal.len() || !match_lit(t, attr_pos, &l_attr) {
        return None;
    }
    let ds = attr_pos + l_attr.len();
    if !match_lit(t, ds, &l_driver) {
        return None;
    }
    let q = scan_ws(t, ds + l_driver.len());
    if q == ds + l_driver.len() {
        return None;
    }
    let ke = scan_kindx(t, q);
    if !match_lit(t, ke, &l_dclose) {
        return None;
    }
    Some(UnresolvedAt { kstart: q, kend: ke, end: ke + l_dclose.len() })
}

// ---------------------------------------------------------------------------
// The passes
// ---------------------------------------------------------------------------

/// Pushes the marker recording kind `k` onto the output.
fn push_marker(out: &mut Vec<char>, k: &Vec<char>)
    ensures
        final(out)@ == old(out)@ + marker(k@),
{
    out.push(' ');
    let l_copen = lit_comment_open_chars();
    push_chars(out, &l_copen);
    out.push(' ');
    let l_track = lit_track_chars();
    push_chars(out, &l_track);
    push_chars(out, k);
    out.push(' ');
    let l_cclose = lit_comment_close_chars();
    push_chars(out, &l_cclose);
    assert(out@ =~= old(out)@ + marker(k@));
}

/// Rewrites every resolved tag's attribute value to the literal that its
/// marker's tracked kind takes under the commit snapshot, re-emitting the
/// marker unchanged; all other text is copied. Returns the rewritten text and
/// whether it differs from the input. Fails, leaving no partial result, on a
/// marker naming an unrecognized kind.
pub fn resolve_template(text: &Vec<char>, snap: &CommitSnapshot) -> (r: Result<
    (Vec<char>, bool),
    TemplateError,
>)
    ensures
        r matches Ok(p) ==> resolve_from(text@, 0, snap@) == Some(p.0@) && (p.1 <==> p.0@
            != text@),
        r is Err ==> resolve_from(text@, 0, snap@) is None,
{
    let k_time = time_kind_chars();
    let k_name = name_kind_chars();
    let k_msg = msg_kind_chars();
    let k_hash = hash_kind_chars();
    let l_terminal = lit_terminal_chars();
    let l_attr = lit_attr_chars();
    let l_close = lit_close_chars();

    let mut out: Vec<char> = Vec::new();
    let mut i: usize = 0;
    proof {
        assert(opt_concat(out@, resolve_from(text@, 0, snap@)) == resolve_from(text@, 0, snap@))
            by {
            match resolve_from(text@, 0, snap@) {
                Some(rest) => {
                    assert(out@ + rest =~= rest);
                },
                None => {},
            }
        }
    }
    while i < text.len()
        invariant
            0 <= i <= text@.len(),
            k_time@ == kind_time(),
            k_name@ == kind_name(),
            k_msg@ == kind_msg(),
            k_hash@ == kind_hash(),
            l_terminal@ == lit_terminal(),
            l_attr@ == lit_attr(),
            l_close@ == lit_close(),
            opt_concat(out@, resolve_from(text@, i as int, snap@)) == resolve_from(
                text@,
                0,
                snap@,
            ),
        decreases text@.len() - i,
    {
        let m = try_parse_resolved(text, i);
        match m {
            Some(p) => {
                proof {
                    lemma_resolved_shape(
                        text@,
                        i as int,
                        ResolvedShape {
                            vstart: p.vstart as int,
                            vend: p.vend as int,
                            kstart: p.kstart as int,
                            kend: p.kend as int,
                            end: p.end as int,
                        },
                    );
                }
                let kind = copy_range(text, p.kstart, p.kend);
                let ghost k = text@.subrange(p.kstart as int, p.kend as int);
                let value: &Vec<char> = if crate::names::chars_eq(&kind, &k_time) {
                    &snap.time
                } else if crate::names::chars_eq(&kind, &k_name) {
                    &snap.name
                } else if crate::names::chars_eq(&kind, &k_msg) {
                    &snap.msg
                } else if crate::names::chars_eq(&kind, &k_hash) {
                    &snap.hash
                } else {
                    assert(!known_kind(k));
                    assert(resolve_from(text@, i as int, snap@) is None);
                    return Err(TemplateError::UnknownTrackedKind);
                };
                assert(known_kind(k) && value@ == lookup(snap@, k));
                let ghost out0 = out@;
                push_chars(&mut out, &l_terminal);
                out.push(' ');
                push_chars(&mut out, &l_attr);
                push_chars(&mut out, value);
                push_chars(&mut out, &l_close);
                push_marker(&mut out, &kind);
                proof {
                    assert(out@ =~= out0 + canon(lookup(snap@, k), k));
                    let rec = resolve_from(text@, p.end as int, snap@);
                    assert(resolve_from(text@, i as int, snap@) == opt_concat(
                        canon(lookup(snap@, k), k),
                        rec,
                    ));
                    match rec {
                        Some(rest) => {
                            assert(out0 + (canon(lookup(snap@, k), k) + rest) =~= out@ + rest);
                        },
                        None => {},
                    }
                }
                i = p.end;
            },
            None => {
                let ghost out0 = out@;
                out.push(text[i]);
                proof {
                    let rec = resolve_from(text@, i + 1, snap@);
                    assert(resolve_from(text@, i as int, snap@) == opt_concat(
                        seq![text@[i as int]],
                        rec,
                    ));
                    match rec {
                        Some(rest) => {
                            assert(out0 + (seq![text@[i as int]] + rest) =~= out@ + rest);
                        },
                        None => {},
                    }
                }
                i += 1;
            },
        }
    }
    proof {
        assert(resolve_from(text@, i as int, snap@) == Some(Seq::<char>::empty()));
        assert(out@ + Seq::<char>::empty() =~= out@);
    }
    let changed = !crate::names::chars_eq(&out, text);
    Ok((out, changed))
}

/// Appends, after every unresolved tag, the marker comment recording the
/// tracked kind its driver invocation names, leaving the attribute's value
/// exactly as authored; all other text is copied. Returns the rewritten text
/// and whether it differs from the input.
pub fn stamp_template_requests(text: &Vec<char>) -> (r: (Vec<char>, bool))
    ensures
        r.0@ == stamp_from(text@, 0),
        r.1 <==> r.0@ != text@,
{
    let mut out: Vec<char> = Vec::new();
    let mut i: usize = 0;
    proof {
        assert(out@ + stamp_from(text@, 0) =~= stamp_from(text@, 0));
    }
    while i < text.len()
        invariant
            0 <= i <= text@.len(),
            stamp_from(text@, 0) == out@ + stamp_from(text@, i as int),
        decreases text@.len() - i,
    {
        let m = try_parse_unresolved(text, i);
        match m {
            Some(p) => {
                proof {
                    lemma_unresolved_shape(
                        text@,
                        i as int,
                        UnresolvedShape {
                            kstart: p.kstart as int,
                            kend: p.kend as int,
                            end: p.end as int,
                        },
                    );
                }
                let matched = copy_range(text, i, p.end);
                let kind = copy_range(text, p.kstart, p.kend);
                let ghost out0 = out@;
                push_chars(&mut out, &matched);
                push_marker(&mut out, &kind);
                proof {
                    assert(stamp_from(text@, 0) =~= out@ + stamp_from(text@, p.end as int));
                }
                i = p.end;
            },
            None => {
                let ghost out0 = out@;
                out.push(text[i]);
                proof {
                    assert(stamp_from(text@, 0) =~= out@ + stamp_from(text@, i + 1));
                }
                i += 1;
            },
        }
    }
    proof {
        assert(stamp_from(text@, i as int) == Seq::<char>::empty());
        assert(out@ + Seq::<char>::empty() =~= out@);
    }
    let changed = !crate::names::chars_eq(&out, text);
    (out, changed)
}

/// A project file handed to the batch passes: its name and its text.
pub struct ProjectFile {
    pub name: Vec<char>,
    pub text: Vec<char>,
}

impl View for ProjectFile {
    type V = (Seq<char>, Seq<char>);

    open spec fn view(&self) -> (Seq<char>, Seq<char>) {
        (self.name@, self.text@)
    }
}

/// A file after a batch pass: its name, its new text, and whether the text
/// differs from what the file held — only then must the caller write it back.
pub struct RewrittenFile {
    pub name: Vec<char>,
    pub text: Vec<char>,
    pub changed: bool,
}

/// Runs the resolution pass over a corpus of files: every file carrying the
/// project extension is rewritten under the snapshot, every other file is
/// left as it is. An unrecognized kind in any project file fails the whole
/// pass, leaving no partial result.
pub fn resolve_project_files(files: &Vec<ProjectFile>, snap: &CommitSnapshot) -> (r: Result<
    Vec<RewrittenFile>,
    TemplateError,
>)
    ensures
        r matches Ok(out) ==> out@.len() == files@.len() && forall|i: int|
            0 <= i < files@.len() ==> out@[i].name@ == files@[i]@.0 && (out@[i].changed <==> out@[i].text@
                != files@[i]@.1) && (if crate::names::spec_has_project_extension(files@[i]@.0) {
                Some(out@[i].text@) == resolve_from(files@[i]@.1, 0, snap@)
            } else {
                out@[i].text@ == files@[i]@.1
            }),
        r is Err ==> exists|i: int|
            0 <= i < files@.len() && crate::names::spec_has_project_extension(files@[i]@.0)
                && resolve_from(files@[i]@.1, 0, snap@) is None,
{
    let mut out: Vec<RewrittenFile> = Vec::new();
    let mut i: usize = 0;
    while i < files.len()
        invariant
            0 <= i <= files@.len(),
            out@.len() == i,
            forall|j: int|
                0 <= j < i ==> out@[j].name@ == files@[j]@.0 && (out@[j].changed <==> out@[j].text@
                    != files@[j]@.1) && (if crate::names::spec_has_project_extension(
                    files@[j]@.0,
                ) {
                    Some(out@[j].text@) == resolve_from(files@[j]@.1, 0, snap@)
                } else {
                    out@[j].text@ == files@[j]@.1
                }),
        decreases files@.len() - i,
    {
        let f = &files[i];
        let name = copy_range(&f.name, 0, f.name.len());
        assert(name@ =~= f.name@);
        if crate::names::has_project_extension(&f.name) {
            match resolve_template(&f.text, snap) {
                Ok((text, changed)) => {
                    out.push(RewrittenFile { name, text, changed });
                },
                Err(e) => {
                    return Err(e);
                },
            }
        } else {
            let text = copy_range(&f.text, 0, f.text.len());
            assert(text@ =~= f.text@);
            out.push(RewrittenFile { name, text, changed: false });
        }
        i += 1;
    }
    Ok(out)
}

/// Runs the stamping pass over a corpus of files: every file carrying the
/// project extension gains a marker after each unresolved tag, every other
/// file is left as it is.
pub fn stamp_project_files(files: &Vec<ProjectFile>) -> (out: Vec<RewrittenFile>)
    ensures
        out@.len() == files@.len(),
        forall|i: int|
            0 <= i < files@.len() ==> out@[i].name@ == files@[i]@.0 && (out@[i].changed <==> out@[i].text@
                != files@[i]@.1) && (if crate::names::spec_has_project_extension(files@[i]@.0) {
                out@[i].text@ == stamp_from(files@[i]@.1, 0)
            } else {
                out@[i].text@ == files@[i]@.1
            }),
{
    let mut out: Vec<RewrittenFile> = Vec::new();
    let mut i: usize = 0;
    while i < files.len()
        invariant
            0 <= i <= files@.len(),
            out@.len() == i,
            forall|j: int|
                0 <= j < i ==> out@[j].name@ == files@[j]@.0 && (out@[j].changed <==> out@[j].text@
                    != files@[j]@.1) && (if crate::names::spec_has_project_extension(
                    files@[j]@.0,
                ) {
                    out@[j].text@ == stamp_from(files@[j]@.1, 0)
                } else {
                    out@[j].text@ == files@[j]@.1
                }),
        decreases files@.len() - i,
    {
        let f = &files[i];
        let name = copy_range(&f.name, 0, f.name.len());
        assert(name@ =~= f.name@);
        if crate::names::has_project_extension(&f.name) {
            let (text, changed) = stamp_template_requests(&f.text);
            out.push(RewrittenFile { name, text, changed });
        } else {
            let text = copy_range(&f.text, 0, f.text.len());
            assert(text@ =~= f.text@);
            out.push(RewrittenFile { name, text, changed: false });
        }
        i += 1;
    }
    out
}

/// The kind `time` as a character vector.
fn time_kind_chars() -> (r: Vec<char>)
    ensures
        r@ == kind_time(),
{
    proof {
        reveal_strlit("time");
    }
    str_to_chars("time")
}

/// The kind `name` as a character vector.
fn name_kind_chars() -> (r: Vec<char>)
    ensures
        r@ == kind_name(),
{
    proof {
        reveal_strlit("name");
    }
    str_to_chars("name")
}

/// The kind `msg` as a character vector.
fn msg_kind_chars() -> (r: Vec<char>)
    ensures
        r@ == kind_msg(),
{
    proof {
        reveal_strlit("msg");
    }
    str_to_chars("msg")
}

/// The kind `hash` as a character vector.
fn hash_kind_chars() -> (r: Vec<char>)
    ensures
        r@ == kind_hash(),
{
    proof {
        reveal_strlit("hash");
    }
    str_to_chars("hash")
}

} // verus!
