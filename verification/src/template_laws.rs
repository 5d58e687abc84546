//! Laws of the templating engine: the canonical resolved form parses back to
//! itself, stamping an unresolved tag and resolving it yields the snapshot's
//! value under an unchanged marker, and resolution is idempotent for
//! snapshots whose values can stand in an attribute.

use vstd::prelude::*;

use crate::template::canon;
use crate::template::has_lit_at;
use crate::template::is_kindx_char;
use crate::template::is_lower;
use crate::template::is_value_char;
use crate::template::is_ws;
use crate::template::kind_hash;
use crate::template::kind_msg;
use crate::template::kind_name;
use crate::template::kind_time;
use crate::template::kindx_end;
use crate::template::known_kind;
use crate::template::lemma_lower_end;
use crate::template::lemma_resolved_shape;
use crate::template::lemma_value_end;
use crate::template::lemma_ws_end;
use crate::template::lit_attr;
use crate::template::lit_close;
use crate::template::lit_comment_close;
use crate::template::lit_comment_open;
use crate::template::lit_driver;
use crate::template::lit_driver_close;
use crate::template::lit_terminal;
use crate::template::lit_track;
use crate::template::lookup;
use crate::template::lower_end;
use crate::template::marker;
use crate::template::parse_resolved_at;
use crate::template::parse_unresolved_at;
use crate::template::resolve_from;
use crate::template::stamp_from;
use crate::template::value_end;
use crate::template::ws_end;
use crate::template::ResolvedShape;
use crate::template::SnapshotModel;
use crate::template::UnresolvedShape;

verus! {

/// A value can stand inside a quoted attribute: it holds no quote, no
/// newline and no `<`.
pub open spec fn clean_value(v: Seq<char>) -> bool {
    forall|j: int| 0 <= j < v.len() ==> is_value_char(v[j])
}

/// A snapshot whose four values can all stand inside a quoted attribute.
pub open spec fn clean_snapshot(s: SnapshotModel) -> bool {
    clean_value(s.time) && clean_value(s.name) && clean_value(s.msg) && clean_value(s.hash)
}

proof fn lemma_ws_stops(t: Seq<char>, i: int, e: int)
    requires
        0 <= i <= e <= t.len(),
        forall|j: int| i <= j < e ==> is_ws(t[j]),
        e == t.len() || !is_ws(t[e]),
    ensures
        ws_end(t, i) == e,
    decreases e - i,
{
    if i < e {
        lemma_ws_stops(t, i + 1, e);
    }
}

proof fn lemma_value_stops(t: Seq<char>, i: int, e: int)
    requires
        0 <= i <= e <= t.len(),
        forall|j: int| i <= j < e ==> is_value_char(t[j]),
        e == t.len() || !is_value_char(t[e]),
    ensures
        value_end(t, i) == e,
    decreases e - i,
{
    if i < e {
        lemma_value_stops(t, i + 1, e);
    }
}

proof fn lemma_lower_stops(t: Seq<char>, i: int, e: int)
    requires
        0 <= i <= e <= t.len(),
        forall|j: int| i <= j < e ==> is_lower(t[j]),
        e == t.len() || !is_lower(t[e]),
    ensures
        lower_end(t, i) == e,
    decreases e - i,
{
    if i < e {
        lemma_lower_stops(t, i + 1, e);
    }
}

proof fn lemma_kindx_stops(t: Seq<char>, i: int, e: int)
    requires
        0 <= i <= e <= t.len(),
        forall|j: int| i <= j < e ==> is_kindx_char(t[j]),
        e == t.len() || !is_kindx_char(t[e]),
    ensures
        kindx_end(t, i) == e,
    decreases e - i,
{
    if i < e {
        lemma_kindx_stops(t, i + 1, e);
    }
}

/// Reveals every literal token of the grammar.
proof fn reveal_tokens()
    ensures
        lit_terminal().len() == 27,
        lit_attr().len() == 17,
        lit_close().len() == 2,
        lit_comment_open().len() == 4,
        lit_track().len() == 16,
        lit_comment_close().len() == 3,
        lit_driver().len() == 10,
        lit_driver_close().len() == 3,
        kind_time().len() == 4,
        kind_name().len() == 4,
        kind_msg().len() == 3,
        kind_hash().len() == 4,
{
    reveal_strlit("<ConfigurableMethodTerminal");
    reveal_strlit("ConfiguredValue=\"");
    reveal_strlit("\">");
    reveal_strlit("<!--");
    reveal_strlit("EV3DIFFER track ");
    reveal_strlit("-->");
    reveal_strlit("{EV3DIFFER");
    reveal_strlit("}\">");
    reveal_strlit("time");
    reveal_strlit("name");
    reveal_strlit("msg");
    reveal_strlit("hash");
}

/// A recognized kind is a non-empty run of lower-case letters.
proof fn lemma_known_kind_chars(k: Seq<char>)
    requires
        known_kind(k),
    ensures
        k.len() > 0,
        forall|j: int| 0 <= j < k.len() ==> is_lower(k[j]),
{
    reveal_strlit("time");
    reveal_strlit("name");
    reveal_strlit("msg");
    reveal_strlit("hash");
    if k == kind_time() {
        assert forall|j: int| 0 <= j < k.len() implies is_lower(k[j]) by {
            if j == 0 {
                assert(k[j] == 't');
            } else if j == 1 {
                assert(k[j] == 'i');
            } else if j == 2 {
                assert(k[j] == 'm');
            } else {
                assert(k[j] == 'e');
            }
        }
    } else if k == kind_name() {
        assert forall|j: int| 0 <= j < k.len() implies is_lower(k[j]) by {
            if j == 0 {
                assert(k[j] == 'n');
            } else if j == 1 {
                assert(k[j] == 'a');
            } else if j == 2 {
                assert(k[j] == 'm');
            } else {
                assert(k[j] == 'e');
            }
        }
    } else if k == kind_msg() {
        assert forall|j: int| 0 <= j < k.len() implies is_lower(k[j]) by {
            if j == 0 {
                assert(k[j] == 'm');
            } else if j == 1 {
                assert(k[j] == 's');
            } else {
                assert(k[j] == 'g');
            }
        }
    } else {
        assert forall|j: int| 0 <= j < k.len() implies is_lower(k[j]) by {
            if j == 0 {
                assert(k[j] == 'h');
            } else if j == 1 {
                assert(k[j] == 'a');
            } else if j == 2 {
                assert(k[j] == 's');
            } else {
                assert(k[j] == 'h');
            }
        }
    }
}

/// The parts of the canonical resolved form, by index from its start.
pub open spec fn canon_shape(i: int, v: Seq<char>, k: Seq<char>) -> ResolvedShape {
    ResolvedShape {
        vstart: i + 45,
        vend: i + 45 + v.len(),
        kstart: i + 69 + v.len(),
        kend: i + 69 + v.len() + k.len(),
        end: i + 73 + v.len() + k.len(),
    }
}

/// The canonical resolved form, followed by anything, parses at its start to
/// exactly itself: the value and kind are found where they were put, and the
/// match ends exactly at the canonical text's end.
pub proof fn lemma_parse_canon(v: Seq<char>, k: Seq<char>, w: Seq<char>)
    requires
        clean_value(v),
        known_kind(k),
    ensures
        canon(v, k).len() == 73 + v.len() + k.len(),
        parse_resolved_at(canon(v, k) + w, 0) == Some(canon_shape(0, v, k)),
        (canon(v, k) + w).subrange(45, 45 + v.len() as int) == v,
        (canon(v, k) + w).subrange(69 + v.len() as int, 69 + v.len() as int + k.len() as int) == k,
{
    reveal_tokens();
    reveal_strlit("<ConfigurableMethodTerminal");
    reveal_strlit("ConfiguredValue=\"");
    reveal_strlit("\">");
    reveal_strlit("<!--");
    reveal_strlit("EV3DIFFER track ");
    reveal_strlit("-->");
    lemma_known_kind_chars(k);
    let t = canon(v, k) + w;
    let c = canon(v, k);
    let nv = v.len() as int;
    let nk = k.len() as int;
    assert(c.len() == 73 + nv + nk);
    assert forall|j: int| 0 <= j < c.len() implies t[j] == c[j] by {}
    assert(t.subrange(0, 27) =~= lit_terminal());
    assert(is_ws(t[27]));
    assert(t[28] == lit_attr()[0]);
    assert(!is_ws(t[28]));
    lemma_ws_stops(t, 27, 28);
    assert(ws_end(t, 27) == 28);
    assert(t.subrange(28, 45) =~= lit_attr());
    assert forall|j: int| 45 <= j < 45 + nv implies is_value_char(t[j]) by {
        assert(t[j] == v[j - 45]);
    }
    assert(t[45 + nv] == lit_close()[0]);
    assert(t[45 + nv] == '"');
    lemma_value_stops(t, 45, 45 + nv);
    assert(value_end(t, 45) == 45 + nv);
    assert(t.subrange(45 + nv, 47 + nv) =~= lit_close());
    assert(is_ws(t[47 + nv]));
    assert(t[48 + nv] == lit_comment_open()[0]);
    assert(!is_ws(t[48 + nv]));
    lemma_ws_stops(t, 47 + nv, 48 + nv);
    assert(t.subrange(48 + nv, 52 + nv) =~= lit_comment_open());
    assert(is_ws(t[52 + nv]));
    assert(t[53 + nv] == lit_track()[0]);
    assert(!is_ws(t[53 + nv]));
    lemma_ws_stops(t, 52 + nv, 53 + nv);
    assert(t.subrange(53 + nv, 69 + nv) =~= lit_track());
    assert forall|j: int| 69 + nv <= j < 69 + nv + nk implies is_lower(t[j]) by {
        assert(t[j] == k[j - 69 - nv]);
    }
    assert(t[69 + nv + nk] == ' ');
    assert(!is_lower(t[69 + nv + nk]));
    lemma_lower_stops(t, 69 + nv, 69 + nv + nk);
    assert(lower_end(t, 69 + nv) == 69 + nv + nk);
    assert(is_ws(t[69 + nv + nk]));
    assert(t[70 + nv + nk] == lit_comment_close()[0]);
    assert(!is_ws(t[70 + nv + nk]));
    lemma_ws_stops(t, 69 + nv + nk, 70 + nv + nk);
    assert(t.subrange(70 + nv + nk, 73 + nv + nk) =~= lit_comment_close());
    assert(has_lit_at(t, 0, lit_terminal()));
    assert(has_lit_at(t, 28, lit_attr()));
    assert(has_lit_at(t, 45 + nv, lit_close()));
    assert(has_lit_at(t, 48 + nv, lit_comment_open()));
    assert(has_lit_at(t, 53 + nv, lit_track()));
    assert(has_lit_at(t, 70 + nv + nk, lit_comment_close()));
    assert(parse_resolved_at(t, 0) == Some(canon_shape(0, v, k)));
    assert(t.subrange(45, 45 + nv) =~= v);
    assert(t.subrange(69 + nv, 69 + nv + nk) =~= k);
}

/// The single unresolved tag asking for a tracked kind, as authored.
pub open spec fn unresolved_tag(k: Seq<char>) -> Seq<char> {
    lit_terminal() + seq![' '] + lit_attr() + lit_driver() + seq![' '] + k + lit_driver_close()
}

/// The unresolved tag parses at its start to exactly itself.
proof fn lemma_parse_unresolved_tag(k: Seq<char>, w: Seq<char>)
    requires
        known_kind(k),
    ensures
        unresolved_tag(k).len() == 59 + k.len(),
        parse_unresolved_at(unresolved_tag(k) + w, 0) == Some(
            UnresolvedShape {
                kstart: 56,
                kend: 56 + k.len() as int,
                end: 59 + k.len() as int,
            },
        ),
        (unresolved_tag(k) + w).subrange(56, 56 + k.len() as int) == k,
{
    reveal_tokens();
    reveal_strlit("<ConfigurableMethodTerminal");
    reveal_strlit("ConfiguredValue=\"");
    reveal_strlit("{EV3DIFFER");
    reveal_strlit("}\">");
    lemma_known_kind_chars(k);
    let t = unresolved_tag(k) + w;
    let c = unresolved_tag(k);
    let nk = k.len() as int;
    assert(c.len() == 59 + nk);
    assert forall|j: int| 0 <= j < c.len() implies t[j] == c[j] by {}
    assert(t.subrange(0, 27) =~= lit_terminal());
    assert(is_ws(t[27]));
    assert(t[28] == lit_attr()[0]);
    assert(!is_ws(t[28]));
    lemma_ws_stops(t, 27, 28);
    assert(t.subrange(28, 45) =~= lit_attr());
    assert(t.subrange(45, 55) =~= lit_driver());
    assert(is_ws(t[55]));
    assert forall|j: int| 56 <= j < 56 + nk implies is_kindx_char(t[j]) && !is_ws(t[j]) by {
        assert(t[j] == k[j - 56]);
        assert(is_lower(k[j - 56]));
    }
    assert(!is_ws(t[56]));
    lemma_ws_stops(t, 55, 56);
    assert(t[56 + nk] == lit_driver_close()[0]);
    assert(t[56 + nk] == '}');
    assert(!is_kindx_char(t[56 + nk]));
    lemma_kindx_stops(t, 56, 56 + nk);
    assert(t.subrange(56 + nk, 59 + nk) =~= lit_driver_close());
    assert(has_lit_at(t, 0, lit_terminal()));
    assert(has_lit_at(t, 28, lit_attr()));
    assert(has_lit_at(t, 45, lit_driver()));
    assert(has_lit_at(t, 56 + nk, lit_driver_close()));
    assert(parse_unresolved_at(t, 0) == Some(
        UnresolvedShape { kstart: 56, kend: 56 + nk, end: 59 + nk },
    ));
    assert(t.subrange(56, 56 + nk) =~= k);
}

/// The attribute value that an unresolved tag holds: the driver invocation
/// naming its kind.
pub open spec fn driver_value(k: Seq<char>) -> Seq<char> {
    lit_driver() + seq![' '] + k + seq!['}']
}

/// Stamping a file that is one unresolved tag appends the marker for its
/// kind and keeps the tag as written.
proof fn lemma_stamp_single(k: Seq<char>)
    requires
        known_kind(k),
    ensures
        stamp_from(unresolved_tag(k), 0) == unresolved_tag(k) + marker(k),
{
    let t = unresolved_tag(k);
    let nk = k.len() as int;
    lemma_parse_unresolved_tag(k, Seq::empty());
    assert(t + Seq::<char>::empty() =~= t);
    let m = UnresolvedShape { kstart: 56, kend: 56 + nk, end: 59 + nk };
    assert(parse_unresolved_at(t, 0) == Some(m));
    assert(m.end == t.len());
    assert(stamp_from(t, m.end) == Seq::<char>::empty());
    assert(t.subrange(0, m.end) =~= t);
    assert(t.subrange(56, 56 + nk) == k);
    assert(stamp_from(t, 0) == t.subrange(0, m.end) + marker(t.subrange(56, 56 + nk))
        + stamp_from(t, m.end));
    assert(t + marker(k) + Seq::<char>::empty() =~= t + marker(k));
}

/// The stamped unresolved tag is exactly the canonical resolved form whose
/// value is the driver invocation itself.
proof fn lemma_stamped_is_canon(k: Seq<char>)
    ensures
        unresolved_tag(k) + marker(k) == canon(driver_value(k), k),
{
    reveal_strlit("}\">");
    reveal_strlit("\">");
    assert(lit_driver_close() =~= seq!['}'] + lit_close());
    assert(unresolved_tag(k) + marker(k) =~= canon(driver_value(k), k));
}

/// The driver invocation can stand inside a quoted attribute.
proof fn lemma_clean_driver_value(k: Seq<char>)
    requires
        known_kind(k),
    ensures
        clean_value(driver_value(k)),
{
    reveal_strlit("{EV3DIFFER");
    lemma_known_kind_chars(k);
    let dv = driver_value(k);
    let nk = k.len() as int;
    assert forall|j: int| 0 <= j < dv.len() implies is_value_char(dv[j]) by {
        if j < 10 {
            assert(dv[j] == lit_driver()[j]);
        } else if j == 10 {
            assert(dv[j] == ' ');
        } else if j < 11 + nk {
            assert(dv[j] == k[j - 11]);
            assert(is_lower(k[j - 11]));
        } else {
            assert(dv[j] == '}');
        }
    }
}

/// Resolving a file that is one canonical resolved tag yields the canonical
/// tag with the value looked up afresh, under the same kind.
pub proof fn lemma_resolve_canon_single(v: Seq<char>, k: Seq<char>, s: SnapshotModel)
    requires
        clean_value(v),
        known_kind(k),
    ensures
        resolve_from(canon(v, k), 0, s) == Some(canon(lookup(s, k), k)),
{
    lemma_parse_canon(v, k, Seq::empty());
    let u = canon(v, k);
    let nv = v.len() as int;
    let nk = k.len() as int;
    assert(u + Seq::<char>::empty() =~= u);
    let mr = canon_shape(0, v, k);
    assert(parse_resolved_at(u, 0) == Some(mr));
    assert(mr.end == u.len());
    assert(u.subrange(mr.kstart, mr.kend) == k);
    assert(resolve_from(u, mr.end, s) == Some(Seq::<char>::empty()));
    assert(resolve_from(u, 0, s) == Some(canon(lookup(s, k), k) + Seq::<char>::empty()));
    assert(canon(lookup(s, k), k) + Seq::<char>::empty() =~= canon(lookup(s, k), k));
}

/// A match read off one text holds in another wherever the other carries the
/// same characters over the match's extent: the parse looks only at the
/// matched region.
#[verifier::rlimit(100)]
pub proof fn lemma_parse_transfer(a: Seq<char>, i: int, b: Seq<char>, j: int, m: ResolvedShape)
    requires
        parse_resolved_at(a, i) == Some(m),
        0 <= j,
        j + (m.end - i) <= b.len(),
        forall|x: int| j <= x < j + (m.end - i) ==> b[x] == a[i + (x - j)],
    ensures
        parse_resolved_at(b, j) == Some(
            ResolvedShape {
                vstart: m.vstart + j - i,
                vend: m.vend + j - i,
                kstart: m.kstart + j - i,
                kend: m.kend + j - i,
                end: m.end + j - i,
            },
        ),
    decreases 0int,
{
    reveal_tokens();
    lemma_resolved_shape(a, i, m);
    let d = j - i;
    let attr_pos = m.vstart - lit_attr().len();
    let ks = m.kstart;
    let ke = m.kend;
    let ve = m.vend;
    let copen_pos = ws_end(a, ve + 2);
    let track_pos = ws_end(a, copen_pos + 4);
    let close_pos = ws_end(a, ke);
    assert(close_pos == m.end - 3);
    lemma_ws_end(a, i + 27);
    assert(ws_end(a, i + 27) == attr_pos);
    lemma_value_end(a, m.vstart);
    lemma_ws_end(a, ve + 2);
    lemma_ws_end(a, copen_pos + 4);
    lemma_lower_end(a, ks);
    lemma_ws_end(a, ke);
    assert(copen_pos + 4 <= track_pos) by {
        lemma_ws_end(a, copen_pos + 4);
    }
    assert(ks == track_pos + 16);

    // The element name.
    assert(b.subrange(j, j + 27) =~= a.subrange(i, i + 27));
    assert(has_lit_at(b, j, lit_terminal()));
    // The whitespace after it.
    assert(forall|x: int| j + 27 <= x < attr_pos + d ==> is_ws(b[x]) && b[x] == a[x - d]);
    assert(!is_ws(a[attr_pos]));
    assert(b[attr_pos + d] == a[attr_pos]);
    lemma_ws_stops(b, j + 27, attr_pos + d);
    assert(ws_end(b, j + 27) == attr_pos + d);
    assert(attr_pos + d != j + 27);
    // The attribute introducer.
    assert(b.subrange(attr_pos + d, attr_pos + d + 17) =~= a.subrange(attr_pos, attr_pos + 17));
    assert(has_lit_at(b, attr_pos + d, lit_attr()));
    // The value.
    assert(forall|x: int| m.vstart + d <= x < ve + d ==> is_value_char(b[x]));
    assert(!is_value_char(a[ve]));
    lemma_value_stops(b, m.vstart + d, ve + d);
    assert(value_end(b, m.vstart + d) == ve + d);
    // The closing quote and bracket.
    assert(b.subrange(ve + d, ve + d + 2) =~= a.subrange(ve, ve + 2));
    assert(has_lit_at(b, ve + d, lit_close()));
    // Whitespace up to the comment.
    assert(forall|x: int| ve + 2 + d <= x < copen_pos + d ==> is_ws(b[x]));
    assert(copen_pos < a.len() && !is_ws(a[copen_pos]));
    lemma_ws_stops(b, ve + 2 + d, copen_pos + d);
    // The comment opening.
    assert(b.subrange(copen_pos + d, copen_pos + d + 4) =~= a.subrange(copen_pos, copen_pos + 4));
    assert(has_lit_at(b, copen_pos + d, lit_comment_open()));
    // Whitespace up to the keyword.
    assert(forall|x: int| copen_pos + 4 + d <= x < track_pos + d ==> is_ws(b[x]));
    assert(track_pos < a.len() && !is_ws(a[track_pos]));
    lemma_ws_stops(b, copen_pos + 4 + d, track_pos + d);
    // The keyword.
    assert(b.subrange(track_pos + d, track_pos + d + 16) =~= a.subrange(track_pos, track_pos + 16));
    assert(has_lit_at(b, track_pos + d, lit_track()));
    // The kind.
    assert(forall|x: int| ks + d <= x < ke + d ==> is_lower(b[x]));
    assert(ke < a.len() && !is_lower(a[ke]));
    lemma_lower_stops(b, ks + d, ke + d);
    assert(lower_end(b, ks + d) == ke + d);
    assert(ke + d != ks + d);
    // Whitespace up to the closing.
    assert(forall|x: int| ke + d <= x < close_pos + d ==> is_ws(b[x]));
    assert(close_pos < a.len() && !is_ws(a[close_pos]));
    lemma_ws_stops(b, ke + d, close_pos + d);
    // The comment closing.
    assert(b.subrange(close_pos + d, close_pos + d + 3) =~= a.subrange(close_pos, close_pos + 3));
    assert(has_lit_at(b, close_pos + d, lit_comment_close()));
    assert(parse_resolved_at(b, j) == Some(
        ResolvedShape {
            vstart: m.vstart + d,
            vend: m.vend + d,
            kstart: m.kstart + d,
            kend: m.kend + d,
            end: m.end + d,
        },
    ));
}

/// Inside a match, `<` stands only where the element name or the marker
/// comment opens; past the match's start, only the comment — so any `<` after
/// the start is followed by `!`.
#[verifier::rlimit(100)]
pub proof fn lemma_match_lt(t: Seq<char>, i: int, m: ResolvedShape, cs: int)
    requires
        parse_resolved_at(t, i) == Some(m),
        i < cs < m.end,
        t[cs] == '<',
    ensures
        cs + 1 < m.end,
        t[cs + 1] == '!',
{
    reveal_tokens();
    reveal_strlit("<ConfigurableMethodTerminal");
    reveal_strlit("ConfiguredValue=\"");
    reveal_strlit("\">");
    reveal_strlit("<!--");
    reveal_strlit("EV3DIFFER track ");
    reveal_strlit("-->");
    lemma_resolved_shape(t, i, m);
    let attr_pos = m.vstart - lit_attr().len();
    let ve = m.vend;
    let ks = m.kstart;
    let ke = m.kend;
    let copen_pos = ws_end(t, ve + 2);
    let track_pos = ws_end(t, copen_pos + 4);
    let close_pos = ws_end(t, ke);
    assert(close_pos == m.end - 3);
    lemma_ws_end(t, i + 27);
    assert(ws_end(t, i + 27) == attr_pos);
    lemma_value_end(t, m.vstart);
    lemma_ws_end(t, ve + 2);
    lemma_ws_end(t, copen_pos + 4);
    lemma_lower_end(t, ks);
    lemma_ws_end(t, ke);
    assert(ks == track_pos + 16);
    assert(!is_ws('<'));
    if cs < i + 27 {
        assert(t.subrange(i, i + 27) == lit_terminal());
        assert(t[cs] == lit_terminal()[cs - i]);
        assert(forall|o: int| 1 <= o < 27 ==> lit_terminal()[o] != '<');
        assert(false);
    } else if cs < attr_pos {
        assert(is_ws(t[cs]));
        assert(false);
    } else if cs < m.vstart {
        assert(t.subrange(attr_pos, attr_pos + 17) == lit_attr());
        assert(t[cs] == lit_attr()[cs - attr_pos]);
        assert(forall|o: int| 0 <= o < 17 ==> lit_attr()[o] != '<');
        assert(false);
    } else if cs < ve {
        assert(is_value_char(t[cs]));
        assert(false);
    } else if cs < ve + 2 {
        assert(t.subrange(ve, ve + 2) == lit_close());
        assert(t[cs] == lit_close()[cs - ve]);
        assert(lit_close()[0] != '<' && lit_close()[1] != '<');
        assert(false);
    } else if cs < copen_pos {
        assert(is_ws(t[cs]));
        assert(false);
    } else if cs == copen_pos {
        assert(t.subrange(copen_pos, copen_pos + 4) == lit_comment_open());
        assert(t[cs + 1] == lit_comment_open()[1]);
        assert(lit_comment_open()[1] == '!');
        assert(cs + 1 < copen_pos + 4 <= track_pos + 16 < m.end);
    } else if cs < copen_pos + 4 {
        assert(t.subrange(copen_pos, copen_pos + 4) == lit_comment_open());
        assert(t[cs] == lit_comment_open()[cs - copen_pos]);
        assert(forall|o: int| 1 <= o < 4 ==> lit_comment_open()[o] != '<');
        assert(false);
    } else if cs < track_pos {
        assert(is_ws(t[cs]));
        assert(false);
    } else if cs < ks {
        assert(t.subrange(track_pos, track_pos + 16) == lit_track());
        assert(t[cs] == lit_track()[cs - track_pos]);
        assert(forall|o: int| 0 <= o < 16 ==> lit_track()[o] != '<');
        assert(false);
    } else if cs < ke {
        assert(is_lower(t[cs]));
        assert(false);
    } else if cs < close_pos {
        assert(is_ws(t[cs]));
        assert(false);
    } else {
        assert(t.subrange(close_pos, close_pos + 3) == lit_comment_close());
        assert(t[cs] == lit_comment_close()[cs - close_pos]);
        assert(forall|o: int| 0 <= o < 3 ==> lit_comment_close()[o] != '<');
        assert(false);
    }
}

/// The first position at or after `i` where the resolved pattern matches, or
/// the text's length when it matches nowhere.
pub open spec fn first_match_from(t: Seq<char>, i: int) -> int
    decreases t.len() - i,
{
    if i < 0 || i >= t.len() {
        t.len() as int
    } else if parse_resolved_at(t, i) is Some {
        i
    } else {
        first_match_from(t, i + 1)
    }
}

proof fn lemma_first_match(t: Seq<char>, i: int)
    requires
        0 <= i <= t.len(),
    ensures
        i <= first_match_from(t, i) <= t.len(),
        forall|x: int| i <= x < first_match_from(t, i) ==> parse_resolved_at(t, x) is None,
        first_match_from(t, i) < t.len() ==> parse_resolved_at(t, first_match_from(t, i)) is Some,
    decreases t.len() - i,
{
    if i < t.len() && parse_resolved_at(t, i) is None {
        lemma_first_match(t, i + 1);
    }
}

/// A position resolves to itself: either nothing matches there, or the match
/// carries a recognized kind and is already the canonical form of its own
/// resolution.
pub open spec fn self_match_at(u: Seq<char>, s: SnapshotModel, i: int) -> bool {
    match parse_resolved_at(u, i) {
        Some(m) => known_kind(u.subrange(m.kstart, m.kend)) && u.subrange(i, m.end) == canon(
            lookup(s, u.subrange(m.kstart, m.kend)),
            u.subrange(m.kstart, m.kend),
        ),
        None => true,
    }
}

/// Every position of the text resolves to itself.
pub open spec fn self_resolving(u: Seq<char>, s: SnapshotModel) -> bool {
    forall|i: int| 0 <= i < u.len() ==> #[trigger] self_match_at(u, s, i)
}

/// A text whose every position resolves to itself is a fixed point of the
/// resolution pass.
proof fn lemma_self_resolving_resolves(u: Seq<char>, s: SnapshotModel, i: int)
    requires
        self_resolving(u, s),
        0 <= i <= u.len(),
    ensures
        resolve_from(u, i, s) == Some(u.subrange(i, u.len() as int)),
    decreases u.len() - i,
{
    if i == u.len() {
        assert(u.subrange(i, u.len() as int) =~= Seq::<char>::empty());
    } else {
        assert(self_match_at(u, s, i));
        match parse_resolved_at(u, i) {
            Some(m) => {
                lemma_resolved_shape(u, i, m);
                let k = u.subrange(m.kstart, m.kend);
                lemma_self_resolving_resolves(u, s, m.end);
                assert(canon(lookup(s, k), k) + u.subrange(m.end, u.len() as int) =~= u.subrange(
                    i,
                    u.len() as int,
                ));
            },
            None => {
                lemma_self_resolving_resolves(u, s, i + 1);
                assert(seq![u[i]] + u.subrange(i + 1, u.len() as int) =~= u.subrange(
                    i,
                    u.len() as int,
                ));
            },
        }
    }
}

/// What the match at a position resolves to.
pub open spec fn canon_at(t: Seq<char>, f: int, s: SnapshotModel) -> Seq<char> {
    let m = parse_resolved_at(t, f).unwrap();
    canon(lookup(s, t.subrange(m.kstart, m.kend)), t.subrange(m.kstart, m.kend))
}

/// The shape of a successful pass's output: the text up to its first match is
/// copied; when there is a match, the match's canonical resolution follows,
/// and then the output of the pass on the rest.
proof fn lemma_resolve_structure(t: Seq<char>, i: int, s: SnapshotModel, u: Seq<char>)
    requires
        0 <= i <= t.len(),
        resolve_from(t, i, s) == Some(u),
    ensures
        first_match_from(t, i) >= t.len() ==> u == t.subrange(i, t.len() as int),
        first_match_from(t, i) < t.len() ==> {
            let f = first_match_from(t, i);
            let m = parse_resolved_at(t, f).unwrap();
            &&& known_kind(t.subrange(m.kstart, m.kend))
            &&& i < m.end <= t.len()
            &&& resolve_from(t, m.end, s) is Some
            &&& u == t.subrange(i, f) + canon_at(t, f, s) + resolve_from(t, m.end, s).unwrap()
        },
    decreases t.len() - i,
{
    lemma_first_match(t, i);
    if i == t.len() {
        assert(u =~= t.subrange(i, t.len() as int));
    } else {
        match parse_resolved_at(t, i) {
            Some(m) => {
                lemma_resolved_shape(t, i, m);
                assert(first_match_from(t, i) == i);
                let k = t.subrange(m.kstart, m.kend);
                assert(known_kind(k));
                let rest = resolve_from(t, m.end, s).unwrap();
                assert(u == canon(lookup(s, k), k) + rest);
                assert(t.subrange(i, i) =~= Seq::<char>::empty());
                assert(t.subrange(i, i) + canon_at(t, i, s) + rest =~= canon(lookup(s, k), k)
                    + rest);
            },
            None => {
                let u1 = resolve_from(t, i + 1, s).unwrap();
                assert(u == seq![t[i]] + u1);
                lemma_resolve_structure(t, i + 1, s, u1);
                let f = first_match_from(t, i);
                assert(f == first_match_from(t, i + 1));
                if f >= t.len() {
                    assert(seq![t[i]] + t.subrange(i + 1, t.len() as int) =~= t.subrange(
                        i,
                        t.len() as int,
                    ));
                } else {
                    let m = parse_resolved_at(t, f).unwrap();
                    let rest = resolve_from(t, m.end, s).unwrap();
                    assert(u1 == t.subrange(i + 1, f) + canon_at(t, f, s) + rest);
                    assert(seq![t[i]] + (t.subrange(i + 1, f) + canon_at(t, f, s) + rest)
                        =~= t.subrange(i, f) + canon_at(t, f, s) + rest);
                }
            },
        }
    }
}

/// The value a recognized kind resolves to can stand inside an attribute when
/// the snapshot is clean.
proof fn lemma_lookup_clean(s: SnapshotModel, k: Seq<char>)
    requires
        clean_snapshot(s),
    ensures
        clean_value(lookup(s, k)),
{
}

/// A successful pass's output resolves to itself at every position: copied
/// characters head no match, and every emitted canonical tag re-matches as
/// exactly itself.
#[verifier::rlimit(100)]
proof fn lemma_resolve_self_resolving(t: Seq<char>, i: int, s: SnapshotModel, u: Seq<char>)
    requires
        clean_snapshot(s),
        0 <= i <= t.len(),
        resolve_from(t, i, s) == Some(u),
    ensures
        self_resolving(u, s),
    decreases t.len() - i,
{
    reveal_strlit("<ConfigurableMethodTerminal");
    if i == t.len() {
        assert(u.len() == 0);
    } else {
        match parse_resolved_at(t, i) {
            Some(m) => {
                lemma_resolved_shape(t, i, m);
                let k = t.subrange(m.kstart, m.kend);
                assert(known_kind(k));
                let v = lookup(s, k);
                lemma_lookup_clean(s, k);
                let c = canon(v, k);
                let u1 = resolve_from(t, m.end, s).unwrap();
                assert(u == c + u1);
                lemma_resolve_self_resolving(t, m.end, s, u1);
                lemma_parse_canon(v, k, u1);
                let cl = c.len() as int;
                lemma_canon_chars(v, k);
                assert forall|p: int| 0 <= p < u.len() implies self_match_at(u, s, p) by {
                    if p == 0 {
                        let mc = canon_shape(0, v, k);
                        assert(parse_resolved_at(u, 0) == Some(mc));
                        assert(u.subrange(mc.kstart, mc.kend) == k);
                        assert(u.subrange(0, mc.end) =~= c);
                    } else if p < cl {
                        lemma_interior_no_match(u, c, p);
                    } else {
                        lemma_suffix_self_match(u, u1, cl, s, p);
                    }
                }
            },
            None => {
                let u1 = resolve_from(t, i + 1, s).unwrap();
                assert(u == seq![t[i]] + u1);
                lemma_resolve_self_resolving(t, i + 1, s, u1);
                lemma_resolve_structure(t, i + 1, s, u1);
                lemma_first_match(t, i + 1);
                assert forall|p: int| 0 <= p < u.len() implies self_match_at(u, s, p) by {
                    if p == 0 {
                        lemma_head_no_match(t, i, s, u, u1);
                    } else {
                        lemma_suffix_self_match(u, u1, 1, s, p);
                    }
                }
            },
        }
    }
}

/// Inside an emitted canonical tag — past its first character — nothing
/// matches: the only interior `<` opens the marker comment, where the element
/// name cannot stand.
proof fn lemma_interior_no_match(u: Seq<char>, c: Seq<char>, p: int)
    requires
        0 < p < c.len() <= u.len(),
        forall|x: int| 0 <= x < c.len() ==> u[x] == c[x],
        forall|x: int|
            0 < x < c.len() && #[trigger] c[x] == '<' ==> x + 1 < c.len() && c[x + 1] == '!',
    ensures
        parse_resolved_at(u, p) is None,
{
    reveal_strlit("<ConfigurableMethodTerminal");
    if parse_resolved_at(u, p) is Some {
        assert(has_lit_at(u, p, lit_terminal()));
        assert(u[p] == u.subrange(p, p + lit_terminal().len())[0]);
        assert(u[p] == '<');
        assert(u[p + 1] == u.subrange(p, p + lit_terminal().len())[1]);
        assert(u[p + 1] == 'C');
        assert(c[p] == '<');
        assert(c[p + 1] == '!');
        assert(false);
    }
}

/// The characters of the canonical form: past its start, `<` stands only
/// where the marker comment opens, followed by `!`.
proof fn lemma_canon_chars(v: Seq<char>, k: Seq<char>)
    requires
        clean_value(v),
        known_kind(k),
    ensures
        forall|x: int|
            0 < x < canon(v, k).len() && #[trigger] canon(v, k)[x] == '<' ==> x + 1 < canon(
                v,
                k,
            ).len() && canon(v, k)[x + 1] == '!',
{
    reveal_tokens();
    reveal_strlit("<ConfigurableMethodTerminal");
    reveal_strlit("ConfiguredValue=\"");
    reveal_strlit("\">");
    reveal_strlit("<!--");
    reveal_strlit("EV3DIFFER track ");
    reveal_strlit("-->");
    lemma_known_kind_chars(k);
    let c = canon(v, k);
    let nv = v.len() as int;
    let nk = k.len() as int;
    assert(c.len() == 73 + nv + nk);
    assert forall|x: int| 0 < x < c.len() && #[trigger] c[x] == '<' implies x + 1 < c.len() && c[x
        + 1] == '!' by {
        if x < 27 {
            assert(c[x] == lit_terminal()[x]);
            assert(forall|o: int| 1 <= o < 27 ==> lit_terminal()[o] != '<');
            assert(false);
        } else if x == 27 {
            assert(c[x] == ' ');
            assert(false);
        } else if x < 45 {
            assert(c[x] == lit_attr()[x - 28]);
            assert(forall|o: int| 0 <= o < 17 ==> lit_attr()[o] != '<');
            assert(false);
        } else if x < 45 + nv {
            assert(c[x] == v[x - 45]);
            assert(is_value_char(v[x - 45]));
            assert(false);
        } else if x < 47 + nv {
            assert(c[x] == lit_close()[x - 45 - nv]);
            assert(lit_close()[0] != '<' && lit_close()[1] != '<');
            assert(false);
        } else if x == 47 + nv {
            assert(c[x] == ' ');
            assert(false);
        } else if x == 48 + nv {
            assert(c[x + 1] == lit_comment_open()[1]);
        } else if x < 52 + nv {
            assert(c[x] == lit_comment_open()[x - 48 - nv]);
            assert(forall|o: int| 1 <= o < 4 ==> lit_comment_open()[o] != '<');
            assert(false);
        } else if x == 52 + nv {
            assert(c[x] == ' ');
            assert(false);
        } else if x < 69 + nv {
            assert(c[x] == lit_track()[x - 53 - nv]);
            assert(forall|o: int| 0 <= o < 16 ==> lit_track()[o] != '<');
            assert(false);
        } else if x < 69 + nv + nk {
            assert(c[x] == k[x - 69 - nv]);
            assert(is_lower(k[x - 69 - nv]));
            assert(false);
        } else if x == 69 + nv + nk {
            assert(c[x] == ' ');
            assert(false);
        } else {
            assert(c[x] == lit_comment_close()[x - 70 - nv - nk]);
            assert(forall|o: int| 0 <= o < 3 ==> lit_comment_close()[o] != '<');
            assert(false);
        }
    }
}

/// Self-resolution transfers from a suffix: when `u` is some prefix of length
/// `cl` followed by `u1`, and `u1` resolves to itself at `p - cl`, then `u`
/// resolves to itself at `p`.
proof fn lemma_suffix_self_match(u: Seq<char>, u1: Seq<char>, cl: int, s: SnapshotModel, p: int)
    requires
        0 <= cl <= p < u.len(),
        u.len() == cl + u1.len(),
        forall|x: int| cl <= x < u.len() ==> u[x] == u1[x - cl],
        self_resolving(u1, s),
    ensures
        self_match_at(u, s, p),
{
    let p1 = p - cl;
    assert(self_match_at(u1, s, p1));
    match parse_resolved_at(u1, p1) {
        Some(m1) => {
            lemma_resolved_shape(u1, p1, m1);
            assert forall|x: int| p <= x < p + (m1.end - p1) implies u[x] == u1[p1 + (x - p)] by {}
            lemma_parse_transfer(u1, p1, u, p, m1);
            let mu = parse_resolved_at(u, p).unwrap();
            assert(u.subrange(mu.kstart, mu.kend) =~= u1.subrange(m1.kstart, m1.kend));
            assert(u.subrange(p, mu.end) =~= u1.subrange(p1, m1.end));
        },
        None => {
            if parse_resolved_at(u, p) is Some {
                let mu = parse_resolved_at(u, p).unwrap();
                lemma_resolved_shape(u, p, mu);
                assert forall|x: int| p1 <= x < p1 + (mu.end - p) implies u1[x] == u[p + (x - p1)]
                    by {}
                lemma_parse_transfer(u, p, u1, p1, mu);
                assert(false);
            }
        },
    }
}

/// At a character the pass copied because nothing matched there, nothing
/// matches in the output either: a match lying in copied text would have
/// matched in the input, and one reaching into an emitted canonical tag would
/// put the element name where only the marker comment can stand.
#[verifier::rlimit(100)]
proof fn lemma_head_no_match(t: Seq<char>, i: int, s: SnapshotModel, u: Seq<char>, u1: Seq<char>)
    requires
        clean_snapshot(s),
        0 <= i < t.len(),
        parse_resolved_at(t, i) is None,
        resolve_from(t, i + 1, s) == Some(u1),
        u == seq![t[i]] + u1,
    ensures
        parse_resolved_at(u, 0) is None,
{
    reveal_tokens();
    reveal_strlit("<ConfigurableMethodTerminal");
    lemma_resolve_structure(t, i + 1, s, u1);
    lemma_first_match(t, i + 1);
    let f = first_match_from(t, i + 1);
    if parse_resolved_at(u, 0) is Some {
        let mu = parse_resolved_at(u, 0).unwrap();
        lemma_resolved_shape(u, 0, mu);
        if f >= t.len() {
            // The whole output is the input's tail: transfer the match back.
            assert(u1 == t.subrange(i + 1, t.len() as int));
            assert forall|x: int| i <= x < i + mu.end implies t[x] == u[x - i] by {
                if x > i {
                    assert(u[x - i] == u1[x - i - 1]);
                }
            }
            assert forall|x: int| i <= x < i + (mu.end - 0) implies t[x] == u[0 + (x - i)] by {}
            lemma_parse_transfer(u, 0, t, i, mu);
            assert(false);
        } else {
            let mf = parse_resolved_at(t, f).unwrap();
            let c = canon_at(t, f, s);
            let rest = resolve_from(t, mf.end, s).unwrap();
            assert(u1 == t.subrange(i + 1, f) + c + rest);
            let cs = f - i;
            assert(1 <= cs);
            // Up to the emitted tag, the output carries the input's characters.
            assert forall|x: int| 0 <= x < cs implies u[x] == t[i + x] by {
                if x > 0 {
                    assert(u[x] == u1[x - 1]);
                    assert(u1[x - 1] == t.subrange(i + 1, f)[x - 1]);
                }
            }
            lemma_resolved_shape(t, f, mf);
            let k = t.subrange(mf.kstart, mf.kend);
            lemma_lookup_clean(s, k);
            lemma_known_kind_chars(k);
            assert(c.len() >= 73);
            assert(u[cs] == u1[cs - 1]);
            assert(u1[cs - 1] == c[0]);
            assert(u[cs + 1] == u1[cs]);
            assert(u1[cs] == c[1]);
            assert(c[0] == lit_terminal()[0] && c[1] == lit_terminal()[1]);
            assert(c[0] == '<' && c[1] == 'C');
            if mu.end <= cs {
                // The match lies in copied text: it was in the input too.
                assert forall|x: int| i <= x < i + (mu.end - 0) implies t[x] == u[0 + (x - i)]
                    by {}
                lemma_parse_transfer(u, 0, t, i, mu);
                assert(false);
            } else {
                lemma_match_lt(u, 0, mu, cs);
                assert(false);
            }
        }
    }
}

/// Templating idempotence: a second resolution pass over a pass's output,
/// under the same snapshot whose values can stand inside a quoted attribute,
/// returns the output unchanged.
pub proof fn lemma_resolve_idempotent(t: Seq<char>, u: Seq<char>, s: SnapshotModel)
    requires
        clean_snapshot(s),
        resolve_from(t, 0, s) == Some(u),
    ensures
        resolve_from(u, 0, s) == Some(u),
{
    if t.len() == 0 {
        assert(u.len() == 0);
        assert(resolve_from(u, 0, s) == Some(Seq::<char>::empty()));
        assert(u =~= Seq::<char>::empty());
    } else {
        lemma_resolve_self_resolving(t, 0, s, u);
        lemma_self_resolving_resolves(u, s, 0);
        assert(u.subrange(0, u.len() as int) =~= u);
    }
}

/// The marker round trip: stamping a file that is one unresolved tag appends
/// the marker for its kind; resolving the stamped text yields the canonical
/// resolved tag whose value is the snapshot's value for that kind — for the
/// `time` kind, the formatted timestamp — with the marker's kind unchanged.
pub proof fn lemma_marker_round_trip(k: Seq<char>, s: SnapshotModel)
    requires
        known_kind(k),
        clean_snapshot(s),
    ensures
        stamp_from(unresolved_tag(k), 0) == unresolved_tag(k) + marker(k),
        resolve_from(unresolved_tag(k) + marker(k), 0, s) == Some(canon(lookup(s, k), k)),
{
    lemma_stamp_single(k);
    lemma_stamped_is_canon(k);
    lemma_clean_driver_value(k);
    lemma_resolve_canon_single(driver_value(k), k, s);
}

} // verus!
