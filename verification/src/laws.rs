//! The codec's laws: serializing any well-formed message and parsing it back
//! yields the message unchanged, with the bytes that follow untouched; and no
//! proper prefix of a block ever parses, so streaming can buffer safely.
use vstd::prelude::*;

verus! {

use crate::text::{
    is_space,
    is_wsb,
    is_digit,
    count_leading,
    find_byte,
    trim,
    trim_end,
    trim_start,
    upper,
    dec_repr,
    lemma_count_leading,
    lemma_count_leading_from,
    lemma_count_leading_append,
    lemma_count_trailing,
    lemma_find_byte,
    lemma_find_byte_at,
    lemma_trim_fixed,
    lemma_trim_after_space,
    lemma_trim_result,
    lemma_dec_repr,
    count_trailing,
};
use crate::wire::{
    HeaderKind,
    spec_header,
    classify,
    header_text_ok,
    key_text_ok,
    DevField,
    dev_label,
    classify_dev_key,
    StatusTok,
    status_label,
    version_key,
    lemma_headers,
    lemma_dev_keys,
    lemma_status_toks,
    lemma_present_toks,
    lemma_version_key,
};
use crate::model::{
    Present,
    LockState,
    Route,
    Lock,
    LabelV,
    HwPortV,
    HwTypeV,
    AlarmV,
    SettingV,
    KVPairV,
    DeviceInfoV,
    MsgV,
    PreambleV,
    wf_text,
    wf_key,
    wf_device,
    wf_labels,
    wf_ports,
    wf_port_type,
    wf_alarms,
    wf_settings,
    wf_msg,
    wf_body,
    is_blank_line,
};
use crate::writer::{
    nl1,
    sp1,
    colon_sp,
    ser_kv_line,
    ser_label_line,
    ser_route_line,
    ser_lock_line,
    ser_port_line,
    ser_alarm_line,
    ser_setting_line,
    ser_unknown_kv_line,
    lock_token,
    port_token,
    present_token,
    ser_labels,
    ser_routes,
    ser_locks,
    ser_ports,
    ser_alarms,
    ser_settings,
    ser_kvpairs,
    ser_opt_text,
    ser_opt_count,
    ser_device_known,
    ser_device_body,
    spec_serialize,
};
use crate::parser::{
    SpecParse,
    BodySplit,
    split_body,
    parse_label_line,
    parse_route_line,
    parse_lock_line,
    parse_status_line,
    parse_kv_line,
    parse_count,
    interp_labels,
    interp_routes,
    interp_locks,
    interp_ports,
    interp_alarms,
    interp_settings,
    interp_preamble,
    empty_device,
    dev_apply,
    interp_device_from,
    interp_block,
    spec_parse_block,
};

/// Text has no line break in it.
pub open spec fn no_nl(s: Seq<u8>) -> bool {
    forall|j: int| 0 <= j < s.len() ==> #[trigger] s[j] != 10
}

// ------------------------------------------------------------------
// Framing lemmas
// ------------------------------------------------------------------
/// Two bodies of complete, non-blank lines concatenate to one.
pub proof fn lemma_wf_body_append(x: Seq<u8>, y: Seq<u8>)
    requires
        wf_body(x),
        wf_body(y),
    ensures
        wf_body(x + y),
    decreases x.len(),
{
    if x.len() == 0 {
        assert(x + y =~= y);
    } else {
        let nl = find_byte(x, 10);
        lemma_find_byte(x, 10);
        let u = x + y;
        assert forall|j: int| 0 <= j < nl implies u[j] != 10 by {
            assert(u[j] == x[j]);
        }
        assert(u[nl] == x[nl]);
        lemma_find_byte_at(u, 10, nl);
        assert(u.take(nl) =~= x.take(nl));
        assert(u.skip(nl + 1) =~= x.skip(nl + 1) + y);
        lemma_wf_body_append(x.skip(nl + 1), y);
    }
}

/// One `Key: Value` line is a valid body.
pub proof fn lemma_wf_kv_line(k: Seq<u8>, v: Seq<u8>)
    requires
        wf_key(k),
        wf_text(v),
    ensures
        wf_body(ser_kv_line(k, v)),
{
    let line = k + colon_sp() + v;
    let b = ser_kv_line(k, v);
    assert(b =~= line + seq![10u8]);
    assert forall|j: int| 0 <= j < line.len() implies line[j] != 10 by {
        if j < k.len() {
            assert(line[j] == k[j]);
        } else if j < k.len() + 2 {
            assert(line[j] == colon_sp()[j - k.len()]);
        } else {
            assert(line[j] == v[j - k.len() - 2]);
        }
    }
    assert forall|j: int| 0 <= j < line.len() implies b[j] == line[j] by {}
    assert(b[line.len() as int] == 10);
    lemma_find_byte_at(b, 10, line.len() as int);
    assert(b.take(line.len() as int) =~= line);
    if k.len() > 0 {
        assert(line[0] == k[0]);
    } else {
        assert(line[0] == colon_sp()[0]);
    }
    assert(line[0] != 13);
    assert(!is_blank_line(b.take(line.len() as int)));
    assert(b.skip(line.len() as int + 1) =~= Seq::<u8>::empty());
    assert(wf_body(Seq::<u8>::empty()));
    assert(b.take(line.len() as int)[0] == line[0]);
}

/// A line that opens with a decimal numeral, then one space, then line text,
/// is a valid body.
pub proof fn lemma_wf_num_line(n: nat, tail: Seq<u8>)
    requires
        no_nl(tail),
    ensures
        wf_body(dec_repr(n) + sp1() + tail + seq![10u8]) == true,
{
    lemma_dec_repr(n);
    let line = dec_repr(n) + sp1() + tail;
    let b = dec_repr(n) + sp1() + tail + seq![10u8];
    assert(b =~= line + seq![10u8]);
    assert forall|j: int| 0 <= j < line.len() implies line[j] != 10 by {
        if j < dec_repr(n).len() {
            assert(line[j] == dec_repr(n)[j]);
            assert(is_digit(dec_repr(n)[j]));
        } else if j < dec_repr(n).len() + 1 {
            assert(line[j] == 32);
        } else {
            assert(line[j] == tail[j - dec_repr(n).len() - 1]);
        }
    }
    assert(b[line.len() as int] == 10);
    lemma_find_byte_at(b, 10, line.len() as int);
    assert(b.take(line.len() as int) =~= line);
    assert(line[0] == dec_repr(n)[0]);
    assert(is_digit(line[0]));
    assert(!is_blank_line(b.take(line.len() as int)));
    assert(b.skip(line.len() as int + 1) =~= Seq::<u8>::empty());
    assert(wf_body(Seq::<u8>::empty()));
    assert(b.take(line.len() as int)[0] == line[0]);
}

/// Splitting a serialized body finds exactly that body.
pub proof fn lemma_split_of_wf(b: Seq<u8>, rest: Seq<u8>)
    requires
        wf_body(b),
    ensures
        split_body(b + seq![10u8] + rest) == (BodySplit::Found { body: b, advance: b.len() as int + 1 }),
    decreases b.len(),
{
    let u = b + seq![10u8] + rest;
    if b.len() == 0 {
        assert(u[0] == 10);
        lemma_find_byte_at(u, 10, 0);
        assert(u.take(0) =~= Seq::<u8>::empty());
        assert(is_blank_line(u.take(0)));
        assert(split_body(u) == BodySplit::Found { body: Seq::<u8>::empty(), advance: 1 });
        assert(Seq::<u8>::empty() =~= b);
    } else {
        let nl = find_byte(b, 10);
        lemma_find_byte(b, 10);
        assert forall|j: int| 0 <= j < nl implies u[j] != 10 by {
            assert(u[j] == b[j]);
        }
        assert(u[nl] == b[nl]);
        lemma_find_byte_at(u, 10, nl);
        assert(u.take(nl) =~= b.take(nl));
        assert(!is_blank_line(u.take(nl)));
        let b2 = b.skip(nl + 1);
        lemma_split_of_wf(b2, rest);
        assert(u.skip(nl + 1) =~= b2 + seq![10u8] + rest);
        assert(split_body(u) == BodySplit::Found {
            body: u.take(nl + 1) + b2,
            advance: nl + 1 + (b2.len() as int + 1),
        });
        assert(u.take(nl + 1) + b2 =~= b);
    }
}

// ------------------------------------------------------------------
// Line-level inversions
// ------------------------------------------------------------------
/// A serialized `Key: Value` line parses back to its key and value.
pub proof fn lemma_parse_kv_line_of(k: Seq<u8>, v: Seq<u8>)
    requires
        wf_key(k),
        wf_text(v),
    ensures
        parse_kv_line(k + colon_sp() + v) == Some((k, v)),
{
    let line = k + colon_sp() + v;
    assert forall|j: int| 0 <= j < k.len() implies line[j] != 58 by {
        assert(line[j] == k[j]);
    }
    assert(line[k.len() as int] == 58);
    lemma_find_byte_at(line, 58, k.len() as int);
    let after = line.skip(k.len() as int + 1);
    assert(after =~= sp1() + v);
    assert(after[0] == 32);
    assert(line.take(k.len() as int) =~= k);
    lemma_trim_fixed(k);
    assert forall|j: int| 0 <= j < sp1().len() implies is_wsb(#[trigger] sp1()[j]) by {
        assert(sp1()[j] == 32);
    }
    lemma_trim_after_space(sp1(), v);
}

/// A serialized label line parses back to its label.
pub proof fn lemma_parse_label_line_of(l: LabelV)
    requires
        wf_text(l.name),
    ensures
        parse_label_line(dec_repr(l.id as nat) + sp1() + l.name) == Some(l),
{
    lemma_dec_repr(l.id as nat);
    let d = dec_repr(l.id as nat);
    let line = d + sp1() + l.name;
    let tail = sp1() + l.name;
    assert(line =~= d + tail);
    assert forall|j: int| 0 <= j < d.len() implies is_digit(#[trigger] d[j]) by {}
    assert(tail[0] == 32);
    assert(!is_digit(tail[0]));
    lemma_count_leading_append(d, tail, |b: u8| is_digit(b));
    assert(line.take(d.len() as int) =~= d);
    assert(line.skip(d.len() as int) =~= tail);
    assert(is_space(tail[0]));
    assert forall|j: int| 0 <= j < sp1().len() implies is_wsb(#[trigger] sp1()[j]) by {
        assert(sp1()[j] == 32);
    }
    lemma_trim_after_space(sp1(), l.name);
}

/// A serialized routing line parses back to its route.
pub proof fn lemma_parse_route_line_of(r: Route)
    ensures
        parse_route_line(dec_repr(r.to_output as nat) + sp1() + dec_repr(r.from_input as nat))
            == Some(r),
{
    lemma_dec_repr(r.to_output as nat);
    lemma_dec_repr(r.from_input as nat);
    let d1 = dec_repr(r.to_output as nat);
    let d2 = dec_repr(r.from_input as nat);
    let line = d1 + sp1() + d2;
    let tail = sp1() + d2;
    assert(line =~= d1 + tail);
    assert forall|j: int| 0 <= j < d1.len() implies is_digit(#[trigger] d1[j]) by {}
    assert(tail[0] == 32);
    lemma_count_leading_append(d1, tail, |b: u8| is_digit(b));
    assert(line.take(d1.len() as int) =~= d1);
    assert(line.skip(d1.len() as int) =~= tail);
    assert forall|j: int| 0 <= j < sp1().len() implies is_space(#[trigger] sp1()[j]) by {
        assert(sp1()[j] == 32);
    }
    assert(!is_space(d2[0]));
    lemma_count_leading_append(sp1(), d2, |b: u8| is_space(b));
    assert(tail.skip(1) =~= d2);
    assert forall|j: int| 0 <= j < d2.len() implies is_digit(#[trigger] d2[j]) by {}
    lemma_count_leading_from(d2, |b: u8| is_digit(b), d2.len() as int);
    assert(d2.take(d2.len() as int) =~= d2);
    assert(d2.skip(d2.len() as int) =~= Seq::<u8>::empty());
}

/// A serialized lock line parses back to its lock.
pub proof fn lemma_parse_lock_line_of(l: Lock)
    ensures
        parse_lock_line(dec_repr(l.id as nat) + sp1() + lock_token(l.state)) == Some(l),
{
    lemma_dec_repr(l.id as nat);
    let d = dec_repr(l.id as nat);
    let tok = lock_token(l.state);
    let line = d + sp1() + tok;
    let tail = sp1() + tok;
    assert(line =~= d + tail);
    assert forall|j: int| 0 <= j < d.len() implies is_digit(#[trigger] d[j]) by {}
    assert(tail[0] == 32);
    lemma_count_leading_append(d, tail, |b: u8| is_digit(b));
    assert(line.take(d.len() as int) =~= d);
    assert(line.skip(d.len() as int) =~= tail);
    assert forall|j: int| 0 <= j < sp1().len() implies is_wsb(#[trigger] sp1()[j]) by {
        assert(sp1()[j] == 32);
    }
    assert(tok.len() == 1);
    assert(!is_wsb(tok[0]));
    lemma_trim_after_space(sp1(), tok);
    match l.state {
        LockState::Owned => {
            assert(tok =~= seq![79u8]);
        },
        LockState::Locked => {
            assert(tok =~= seq![76u8]);
            assert(tok != seq![79u8] && tok != seq![111u8]);
        },
        LockState::Unlocked => {
            assert(tok =~= seq![85u8]);
            assert(tok != seq![79u8] && tok != seq![111u8]);
            assert(tok != seq![76u8] && tok != seq![108u8]);
        },
    }
}

/// A serialized status line parses back to its port.
pub proof fn lemma_parse_status_line_of(p: HwPortV)
    requires
        wf_port_type(p.port_type),
    ensures
        parse_status_line(dec_repr(p.id as nat) + sp1() + port_token(p.port_type)) == Some(p),
{
    lemma_dec_repr(p.id as nat);
    lemma_status_toks();
    let d = dec_repr(p.id as nat);
    let tok = port_token(p.port_type);
    let line = d + sp1() + tok;
    let tail = sp1() + tok;
    assert(line =~= d + tail);
    assert forall|j: int| 0 <= j < d.len() implies is_digit(#[trigger] d[j]) by {}
    assert(tail[0] == 32);
    lemma_count_leading_append(d, tail, |b: u8| is_digit(b));
    assert(line.take(d.len() as int) =~= d);
    assert(line.skip(d.len() as int) =~= tail);
    assert forall|j: int| 0 <= j < sp1().len() implies is_wsb(#[trigger] sp1()[j]) by {
        assert(sp1()[j] == 32);
    }
    match p.port_type {
        HwTypeV::Other(s) => {
            lemma_trim_after_space(sp1(), s);
        },
        HwTypeV::NoPort => {
            assert(key_text_ok(status_label(StatusTok::NoPort)));
            lemma_trim_after_space(sp1(), tok);
        },
        HwTypeV::BNC => {
            assert(key_text_ok(status_label(StatusTok::Bnc)));
            lemma_trim_after_space(sp1(), tok);
        },
        HwTypeV::Optical => {
            assert(key_text_ok(status_label(StatusTok::Optical)));
            lemma_trim_after_space(sp1(), tok);
        },
        HwTypeV::Thunderbolt => {
            assert(key_text_ok(status_label(StatusTok::Thunderbolt)));
            lemma_trim_after_space(sp1(), tok);
        },
        HwTypeV::RS422 => {
            assert(key_text_ok(status_label(StatusTok::Rs422)));
            lemma_trim_after_space(sp1(), tok);
        },
    }
}

/// A serialized labels body is well formed and parses back to its list.
#[verifier::rlimit(60)]
pub proof fn lemma_labels_body(ls: Seq<LabelV>)
    requires
        wf_labels(ls),
    ensures
        wf_body(ser_labels(ls)),
        interp_labels(ser_labels(ls)) == Some(ls),
    decreases ls.len(),
{
    if ls.len() == 0 {
        assert(ser_labels(ls) == Seq::<u8>::empty());
        assert(interp_labels(ser_labels(ls)) == Some(Seq::<LabelV>::empty()));
        assert(Seq::<LabelV>::empty() =~= ls);
    } else {
        let l = ls[0];
        let content = dec_repr(l.id as nat) + sp1() + l.name;
        let lineb = ser_label_line(l);
        assert(lineb =~= content + seq![10u8]);
        assert(wf_text(l.name));
        lemma_wf_num_line(l.id as nat, l.name);
        assert(lineb =~= dec_repr(l.id as nat) + sp1() + l.name + seq![10u8]);
        assert(wf_body(lineb));
        let dd = ls.drop_first();
        assert forall|i: int| 0 <= i < dd.len() implies wf_text(#[trigger] dd[i].name) by {
            assert(dd[i] == ls[i + 1]);
        }
        lemma_labels_body(dd);
        let b = ser_labels(ls);
        assert(b == lineb + ser_labels(dd));
        lemma_wf_body_append(lineb, ser_labels(dd));
        assert forall|j: int| 0 <= j < content.len() implies content[j] != 10 by {
            lemma_dec_repr(l.id as nat);
            if j < dec_repr(l.id as nat).len() {
                assert(content[j] == dec_repr(l.id as nat)[j]);
                assert(is_digit(content[j]));
            } else if j == dec_repr(l.id as nat).len() {
                assert(content[j] == 32);
            } else {
                assert(content[j] == l.name[j - dec_repr(l.id as nat).len() - 1]);
            }
        }
        assert forall|j: int| 0 <= j < content.len() implies b[j] == content[j] by {
            assert(b[j] == lineb[j]);
        }
        assert(b[content.len() as int] == lineb[content.len() as int]);
        assert(b[content.len() as int] == 10);
        lemma_find_byte_at(b, 10, content.len() as int);
        assert(b.take(content.len() as int) =~= content);
        lemma_parse_label_line_of(l);
        assert(b.skip(content.len() as int + 1) =~= ser_labels(dd));
        assert(interp_labels(b) == Some(seq![l] + dd));
        assert(seq![l] + dd =~= ls);
    }
}

/// A serialized routes body is well formed and parses back to its list.
#[verifier::rlimit(60)]
pub proof fn lemma_routes_body(ls: Seq<Route>)
    ensures
        wf_body(ser_routes(ls)),
        interp_routes(ser_routes(ls)) == Some(ls),
    decreases ls.len(),
{
    if ls.len() == 0 {
        assert(ser_routes(ls) == Seq::<u8>::empty());
        assert(interp_routes(ser_routes(ls)) == Some(Seq::<Route>::empty()));
        assert(Seq::<Route>::empty() =~= ls);
    } else {
        let l = ls[0];
        let content = dec_repr(l.to_output as nat) + sp1() + dec_repr(l.from_input as nat);
        let lineb = ser_route_line(l);
        assert(lineb =~= content + seq![10u8]);
        assert forall|j: int| 0 <= j < dec_repr(l.from_input as nat).len() implies dec_repr(
            l.from_input as nat,
        )[j] != 10 by {
            lemma_dec_repr(l.from_input as nat);
            assert(is_digit(dec_repr(l.from_input as nat)[j]));
        }
        lemma_wf_num_line(l.to_output as nat, dec_repr(l.from_input as nat));
        assert(lineb =~= dec_repr(l.to_output as nat) + sp1() + dec_repr(l.from_input as nat)
            + seq![10u8]);
        assert(wf_body(lineb));
        let dd = ls.drop_first();
        assert forall|i: int| 0 <= i < dd.len() implies dd[i] == ls[i + 1] by {
            assert(dd[i] == ls[i + 1]);
        }
        lemma_routes_body(dd);
        let b = ser_routes(ls);
        assert(b == lineb + ser_routes(dd));
        lemma_wf_body_append(lineb, ser_routes(dd));
        assert forall|j: int| 0 <= j < content.len() implies content[j] != 10 by {
            lemma_dec_repr(l.to_output as nat);
            lemma_dec_repr(l.from_input as nat);
            if j < dec_repr(l.to_output as nat).len() {
                assert(content[j] == dec_repr(l.to_output as nat)[j]);
                assert(is_digit(content[j]));
            } else if j == dec_repr(l.to_output as nat).len() {
                assert(content[j] == 32);
            } else {
                assert(content[j] == dec_repr(l.from_input as nat)[j - dec_repr(
                    l.to_output as nat,
                ).len() - 1]);
                assert(is_digit(content[j]));
            }
        }
        assert forall|j: int| 0 <= j < content.len() implies b[j] == content[j] by {
            assert(b[j] == lineb[j]);
        }
        assert(b[content.len() as int] == lineb[content.len() as int]);
        assert(b[content.len() as int] == 10);
        lemma_find_byte_at(b, 10, content.len() as int);
        assert(b.take(content.len() as int) =~= content);
        lemma_parse_route_line_of(l);
        assert(b.skip(content.len() as int + 1) =~= ser_routes(dd));
        assert(interp_routes(b) == Some(seq![l] + dd));
        assert(seq![l] + dd =~= ls);
    }
}

/// A serialized locks body is well formed and parses back to its list.
#[verifier::rlimit(60)]
pub proof fn lemma_locks_body(ls: Seq<Lock>)
    ensures
        wf_body(ser_locks(ls)),
        interp_locks(ser_locks(ls)) == Some(ls),
    decreases ls.len(),
{
    if ls.len() == 0 {
        assert(ser_locks(ls) == Seq::<u8>::empty());
        assert(interp_locks(ser_locks(ls)) == Some(Seq::<Lock>::empty()));
        assert(Seq::<Lock>::empty() =~= ls);
    } else {
        let l = ls[0];
        let content = dec_repr(l.id as nat) + sp1() + lock_token(l.state);
        let lineb = ser_lock_line(l);
        assert(lineb =~= content + seq![10u8]);
        assert forall|j: int| 0 <= j < lock_token(l.state).len() implies lock_token(
            l.state,
        )[j] != 10 by {}
        lemma_wf_num_line(l.id as nat, lock_token(l.state));
        assert(lineb =~= dec_repr(l.id as nat) + sp1() + lock_token(l.state) + seq![10u8]);
        assert(wf_body(lineb));
        let dd = ls.drop_first();
        assert forall|i: int| 0 <= i < dd.len() implies dd[i] == ls[i + 1] by {
            assert(dd[i] == ls[i + 1]);
        }
        lemma_locks_body(dd);
        let b = ser_locks(ls);
        assert(b == lineb + ser_locks(dd));
        lemma_wf_body_append(lineb, ser_locks(dd));
        assert forall|j: int| 0 <= j < content.len() implies content[j] != 10 by {
            lemma_dec_repr(l.id as nat);
            if j < dec_repr(l.id as nat).len() {
                assert(content[j] == dec_repr(l.id as nat)[j]);
                assert(is_digit(content[j]));
            } else if j == dec_repr(l.id as nat).len() {
                assert(content[j] == 32);
            } else {
                assert(content[j] == lock_token(l.state)[j - dec_repr(l.id as nat).len() - 1]);
            }
            match l.state {
                LockState::Owned => {},
                LockState::Locked => {},
                LockState::Unlocked => {},
            }
        }
        assert forall|j: int| 0 <= j < content.len() implies b[j] == content[j] by {
            assert(b[j] == lineb[j]);
        }
        assert(b[content.len() as int] == lineb[content.len() as int]);
        assert(b[content.len() as int] == 10);
        lemma_find_byte_at(b, 10, content.len() as int);
        assert(b.take(content.len() as int) =~= content);
        lemma_parse_lock_line_of(l);
        assert(b.skip(content.len() as int + 1) =~= ser_locks(dd));
        assert(interp_locks(b) == Some(seq![l] + dd));
        assert(seq![l] + dd =~= ls);
    }
}

/// A serialized ports body is well formed and parses back to its list.
#[verifier::rlimit(60)]
pub proof fn lemma_ports_body(ls: Seq<HwPortV>)
    requires
        wf_ports(ls),
    ensures
        wf_body(ser_ports(ls)),
        interp_ports(ser_ports(ls)) == Some(ls),
    decreases ls.len(),
{
    if ls.len() == 0 {
        assert(ser_ports(ls) == Seq::<u8>::empty());
        assert(interp_ports(ser_ports(ls)) == Some(Seq::<HwPortV>::empty()));
        assert(Seq::<HwPortV>::empty() =~= ls);
    } else {
        let l = ls[0];
        let content = dec_repr(l.id as nat) + sp1() + port_token(l.port_type);
        let lineb = ser_port_line(l);
        assert(lineb =~= content + seq![10u8]);
        assert(wf_port_type(l.port_type));
        lemma_status_toks();
        assert forall|j: int| 0 <= j < port_token(l.port_type).len() implies port_token(
            l.port_type,
        )[j] != 10 by {
            match l.port_type {
                HwTypeV::Other(s) => {
                    assert(port_token(l.port_type) == s);
                    assert(s[j] != 10);
                },
                HwTypeV::NoPort => {
                    assert(key_text_ok(status_label(StatusTok::NoPort)));
                },
                HwTypeV::BNC => {
                    assert(key_text_ok(status_label(StatusTok::Bnc)));
                },
                HwTypeV::Optical => {
                    assert(key_text_ok(status_label(StatusTok::Optical)));
                },
                HwTypeV::Thunderbolt => {
                    assert(key_text_ok(status_label(StatusTok::Thunderbolt)));
                },
                HwTypeV::RS422 => {
                    assert(key_text_ok(status_label(StatusTok::Rs422)));
                },
            }
        }
        lemma_wf_num_line(l.id as nat, port_token(l.port_type));
        assert(lineb =~= dec_repr(l.id as nat) + sp1() + port_token(l.port_type) + seq![10u8]);
        assert(wf_body(lineb));
        let dd = ls.drop_first();
        assert forall|i: int| 0 <= i < dd.len() implies wf_port_type(#[trigger] dd[i].port_type) by {
            assert(dd[i] == ls[i + 1]);
        }
        lemma_ports_body(dd);
        let b = ser_ports(ls);
        assert(b == lineb + ser_ports(dd));
        lemma_wf_body_append(lineb, ser_ports(dd));
        assert forall|j: int| 0 <= j < content.len() implies content[j] != 10 by {
            lemma_dec_repr(l.id as nat);
            if j < dec_repr(l.id as nat).len() {
                assert(content[j] == dec_repr(l.id as nat)[j]);
                assert(is_digit(content[j]));
            } else if j == dec_repr(l.id as nat).len() {
                assert(content[j] == 32);
            } else {
                assert(content[j] == port_token(l.port_type)[j - dec_repr(l.id as nat).len() - 1]);
            }
        }
        assert forall|j: int| 0 <= j < content.len() implies b[j] == content[j] by {
            assert(b[j] == lineb[j]);
        }
        assert(b[content.len() as int] == lineb[content.len() as int]);
        assert(b[content.len() as int] == 10);
        lemma_find_byte_at(b, 10, content.len() as int);
        assert(b.take(content.len() as int) =~= content);
        lemma_parse_status_line_of(l);
        assert(b.skip(content.len() as int + 1) =~= ser_ports(dd));
        assert(interp_ports(b) == Some(seq![l] + dd));
        assert(seq![l] + dd =~= ls);
    }
}

/// A serialized alarms body is well formed and parses back to its list.
#[verifier::rlimit(60)]
pub proof fn lemma_alarms_body(ls: Seq<AlarmV>)
    requires
        wf_alarms(ls),
    ensures
        wf_body(ser_alarms(ls)),
        interp_alarms(ser_alarms(ls)) == Some(ls),
    decreases ls.len(),
{
    if ls.len() == 0 {
        assert(ser_alarms(ls) == Seq::<u8>::empty());
        assert(interp_alarms(ser_alarms(ls)) == Some(Seq::<AlarmV>::empty()));
        assert(Seq::<AlarmV>::empty() =~= ls);
    } else {
        let l = ls[0];
        let content = l.name + colon_sp() + l.status;
        let lineb = ser_alarm_line(l);
        assert(lineb =~= content + seq![10u8]);
        assert(wf_key(l.name) && wf_text(l.status));
        lemma_wf_kv_line(l.name, l.status);
        assert(wf_body(lineb));
        let dd = ls.drop_first();
        assert forall|i: int| 0 <= i < dd.len() implies wf_key(#[trigger] dd[i].name) && wf_text(dd[i].status) by {
            assert(dd[i] == ls[i + 1]);
        }
        lemma_alarms_body(dd);
        let b = ser_alarms(ls);
        assert(b == lineb + ser_alarms(dd));
        lemma_wf_body_append(lineb, ser_alarms(dd));
        assert forall|j: int| 0 <= j < content.len() implies content[j] != 10 by {
            if j < l.name.len() {
                assert(content[j] == l.name[j]);
            } else if j < l.name.len() + 2 {
                assert(content[j] == colon_sp()[j - l.name.len()]);
            } else {
                assert(content[j] == l.status[j - l.name.len() - 2]);
            }
        }
        assert forall|j: int| 0 <= j < content.len() implies b[j] == content[j] by {
            assert(b[j] == lineb[j]);
        }
        assert(b[content.len() as int] == lineb[content.len() as int]);
        assert(b[content.len() as int] == 10);
        lemma_find_byte_at(b, 10, content.len() as int);
        assert(b.take(content.len() as int) =~= content);
        lemma_parse_kv_line_of(l.name, l.status);
        assert(b.skip(content.len() as int + 1) =~= ser_alarms(dd));
        assert(interp_alarms(b) == Some(seq![AlarmV { name: l.name, status: l.status }] + dd));
        assert(seq![AlarmV { name: l.name, status: l.status }] + dd =~= ls);
    }
}

/// A serialized settings body is well formed and parses back to its list.
#[verifier::rlimit(60)]
pub proof fn lemma_settings_body(ls: Seq<SettingV>)
    requires
        wf_settings(ls),
    ensures
        wf_body(ser_settings(ls)),
        interp_settings(ser_settings(ls)) == Some(ls),
    decreases ls.len(),
{
    if ls.len() == 0 {
        assert(ser_settings(ls) == Seq::<u8>::empty());
        assert(interp_settings(ser_settings(ls)) == Some(Seq::<SettingV>::empty()));
        assert(Seq::<SettingV>::empty() =~= ls);
    } else {
        let l = ls[0];
        let content = l.setting + colon_sp() + l.value;
        let lineb = ser_setting_line(l);
        assert(lineb =~= content + seq![10u8]);
        assert(wf_key(l.setting) && wf_text(l.value));
        lemma_wf_kv_line(l.setting, l.value);
        assert(wf_body(lineb));
        let dd = ls.drop_first();
        assert forall|i: int| 0 <= i < dd.len() implies wf_key(#[trigger] dd[i].setting) && wf_text(dd[i].value) by {
            assert(dd[i] == ls[i + 1]);
        }
        lemma_settings_body(dd);
        let b = ser_settings(ls);
        assert(b == lineb + ser_settings(dd));
        lemma_wf_body_append(lineb, ser_settings(dd));
        assert forall|j: int| 0 <= j < content.len() implies content[j] != 10 by {
            if j < l.setting.len() {
                assert(content[j] == l.setting[j]);
            } else if j < l.setting.len() + 2 {
                assert(content[j] == colon_sp()[j - l.setting.len()]);
            } else {
                assert(content[j] == l.value[j - l.setting.len() - 2]);
            }
        }
        assert forall|j: int| 0 <= j < content.len() implies b[j] == content[j] by {
            assert(b[j] == lineb[j]);
        }
        assert(b[content.len() as int] == lineb[content.len() as int]);
        assert(b[content.len() as int] == 10);
        lemma_find_byte_at(b, 10, content.len() as int);
        assert(b.take(content.len() as int) =~= content);
        lemma_parse_kv_line_of(l.setting, l.value);
        assert(b.skip(content.len() as int + 1) =~= ser_settings(dd));
        assert(interp_settings(b) == Some(seq![SettingV { setting: l.setting, value: l.value }] + dd));
        assert(seq![SettingV { setting: l.setting, value: l.value }] + dd =~= ls);
    }
}

// ------------------------------------------------------------------
// Preamble and device bodies
// ------------------------------------------------------------------
/// A decimal numeral is line text without colon.
pub proof fn lemma_dec_repr_text(n: nat)
    ensures
        wf_text(dec_repr(n)),
        wf_key(dec_repr(n)),
    decreases n,
{
    lemma_dec_repr(n);
    let d = dec_repr(n);
    assert(is_digit(d[0]));
    assert(is_digit(d[d.len() - 1]));
    assert(!is_wsb(d[0]));
    assert(!is_wsb(d.last()));
}

/// The serialized preamble body parses back to its version.
pub proof fn lemma_preamble_body(version: Seq<u8>)
    requires
        wf_text(version),
    ensures
        wf_body(ser_kv_line(version_key(), version)),
        interp_preamble(ser_kv_line(version_key(), version)) == Some(
            PreambleV { version: version },
        ),
{
    lemma_version_key();
    lemma_wf_kv_line(version_key(), version);
    let line = version_key() + colon_sp() + version;
    let b = ser_kv_line(version_key(), version);
    assert(b =~= line + seq![10u8]);
    assert forall|j: int| 0 <= j < line.len() implies line[j] != 10 by {
        if j < 7 {
            assert(line[j] == version_key()[j]);
        } else if j < 9 {
            assert(line[j] == colon_sp()[j - 7]);
        } else {
            assert(line[j] == version[j - 9]);
        }
    }
    assert forall|j: int| 0 <= j < line.len() implies b[j] == line[j] by {}
    assert(b[line.len() as int] == 10);
    lemma_find_byte_at(b, 10, line.len() as int);
    assert(b.take(line.len() as int) =~= line);
    assert(line.take(7) =~= version_key());
    assert(line[7] == colon_sp()[0]);
    assert(line.skip(8) =~= sp1() + version);
    assert forall|j: int| 0 <= j < sp1().len() implies is_wsb(#[trigger] sp1()[j]) by {
        assert(sp1()[j] == 32);
    }
    lemma_trim_after_space(sp1(), version);
}

/// The fields left behind after the unrecognized pairs are appended.
pub open spec fn dev_push_pairs(acc: DeviceInfoV, ps: Seq<KVPairV>) -> DeviceInfoV
    decreases ps.len(),
{
    if ps.len() == 0 {
        acc
    } else {
        let acc2 = match acc.unknown_fields {
            Some(q) => DeviceInfoV { unknown_fields: Some(q.push(ps[0])), ..acc },
            None => DeviceInfoV { unknown_fields: Some(Seq::empty().push(ps[0])), ..acc },
        };
        dev_push_pairs(acc2, ps.drop_first())
    }
}

/// One `Key: Value` line at the front of a device body applies the pair.
pub proof fn lemma_dev_step(acc: DeviceInfoV, k: Seq<u8>, v: Seq<u8>, rest: Seq<u8>)
    requires
        wf_key(k),
        wf_text(v),
    ensures
        interp_device_from(acc, ser_kv_line(k, v) + rest) == (match dev_apply(acc, k, v) {
            None => None::<DeviceInfoV>,
            Some(a2) => interp_device_from(a2, rest),
        }),
{
    let line = k + colon_sp() + v;
    let b = ser_kv_line(k, v) + rest;
    assert(b =~= line + seq![10u8] + rest);
    assert forall|j: int| 0 <= j < line.len() implies line[j] != 10 by {
        if j < k.len() {
            assert(line[j] == k[j]);
        } else if j < k.len() + 2 {
            assert(line[j] == colon_sp()[j - k.len()]);
        } else {
            assert(line[j] == v[j - k.len() - 2]);
        }
    }
    assert forall|j: int| 0 <= j < line.len() implies b[j] == line[j] by {}
    assert(b[line.len() as int] == 10);
    lemma_find_byte_at(b, 10, line.len() as int);
    assert(b.take(line.len() as int) =~= line);
    lemma_parse_kv_line_of(k, v);
    assert(b.skip(line.len() as int + 1) =~= rest);
}

/// Appending the unrecognized pairs of a device body, line by line.
pub proof fn lemma_dev_unknowns(acc: DeviceInfoV, ps: Seq<KVPairV>)
    requires
        forall|i: int| 0 <= i < ps.len() ==> wf_key(#[trigger] ps[i].key) && classify_dev_key(
            ps[i].key,
        ) is None && wf_text(ps[i].value),
    ensures
        wf_body(ser_kvpairs(ps)),
        interp_device_from(acc, ser_kvpairs(ps)) == Some(dev_push_pairs(acc, ps)),
    decreases ps.len(),
{
    if ps.len() == 0 {
        assert(ser_kvpairs(ps) == Seq::<u8>::empty());
    } else {
        let p = ps[0];
        let dd = ps.drop_first();
        assert(wf_key(p.key) && classify_dev_key(p.key) is None && wf_text(p.value));
        assert forall|i: int| 0 <= i < dd.len() implies wf_key(#[trigger] dd[i].key)
            && classify_dev_key(dd[i].key) is None && wf_text(dd[i].value) by {
            assert(dd[i] == ps[i + 1]);
        }
        let acc2 = match acc.unknown_fields {
            Some(q) => DeviceInfoV { unknown_fields: Some(q.push(p)), ..acc },
            None => DeviceInfoV { unknown_fields: Some(Seq::empty().push(p)), ..acc },
        };
        lemma_dev_unknowns(acc2, dd);
        lemma_wf_kv_line(p.key, p.value);
        lemma_wf_body_append(ser_kv_line(p.key, p.value), ser_kvpairs(dd));
        assert(ser_kvpairs(ps) == ser_unknown_kv_line(p) + ser_kvpairs(dd));
        assert(ser_unknown_kv_line(p) == ser_kv_line(p.key, p.value));
        lemma_dev_step(acc, p.key, p.value, ser_kvpairs(dd));
        assert(dev_apply(acc, p.key, p.value) == Some(acc2));
    }
}

/// Where the appended pairs end up.
pub proof fn lemma_dev_push_pairs(acc: DeviceInfoV, ps: Seq<KVPairV>)
    ensures
        dev_push_pairs(acc, ps).present == acc.present,
        dev_push_pairs(acc, ps).model_name == acc.model_name,
        dev_push_pairs(acc, ps).friendly_name == acc.friendly_name,
        dev_push_pairs(acc, ps).unique_id == acc.unique_id,
        dev_push_pairs(acc, ps).video_inputs == acc.video_inputs,
        dev_push_pairs(acc, ps).video_processing_units == acc.video_processing_units,
        dev_push_pairs(acc, ps).video_outputs == acc.video_outputs,
        dev_push_pairs(acc, ps).video_monitoring_outputs == acc.video_monitoring_outputs,
        dev_push_pairs(acc, ps).serial_ports == acc.serial_ports,
        dev_push_pairs(acc, ps).unknown_fields == (match acc.unknown_fields {
            Some(q) => Some(q + ps),
            None => {
                if ps.len() == 0 {
                    None::<Seq<KVPairV>>
                } else {
                    Some(ps)
                }
            },
        }),
    decreases ps.len(),
{
    if ps.len() == 0 {
        match acc.unknown_fields {
            Some(q) => {
                assert(q + ps =~= q);
            },
            None => {},
        }
    } else {
        let p = ps[0];
        let dd = ps.drop_first();
        let acc2 = match acc.unknown_fields {
            Some(q) => DeviceInfoV { unknown_fields: Some(q.push(p)), ..acc },
            None => DeviceInfoV { unknown_fields: Some(Seq::empty().push(p)), ..acc },
        };
        lemma_dev_push_pairs(acc2, dd);
        match acc.unknown_fields {
            Some(q) => {
                assert(q.push(p) + dd =~= q + ps);
            },
            None => {
                assert(Seq::empty().push(p) + dd =~= ps);
            },
        }
    }
}

/// A canonical numeral reads back as its number.
pub proof fn lemma_parse_count_of(n: u32)
    ensures
        parse_count(dec_repr(n as nat)) == Some(n),
{
    lemma_dec_repr(n as nat);
    let d = dec_repr(n as nat);
    assert forall|j: int| 0 <= j < d.len() implies is_digit(#[trigger] d[j]) by {}
    lemma_count_leading_from(d, |b: u8| is_digit(b), d.len() as int);
}

/// Record updates for the recognized device fields.
pub open spec fn set_text_field(acc: DeviceInfoV, f: DevField, v: Seq<u8>) -> DeviceInfoV {
    match f {
        DevField::Model => DeviceInfoV { model_name: Some(v), ..acc },
        DevField::Friendly => DeviceInfoV { friendly_name: Some(v), ..acc },
        DevField::Unique => DeviceInfoV { unique_id: Some(v), ..acc },
        _ => acc,
    }
}

pub open spec fn set_count_field(acc: DeviceInfoV, f: DevField, n: u32) -> DeviceInfoV {
    match f {
        DevField::Inputs => DeviceInfoV { video_inputs: Some(n), ..acc },
        DevField::Processing => DeviceInfoV { video_processing_units: Some(n), ..acc },
        DevField::Outputs => DeviceInfoV { video_outputs: Some(n), ..acc },
        DevField::Monitoring => DeviceInfoV { video_monitoring_outputs: Some(n), ..acc },
        DevField::Serial => DeviceInfoV { serial_ports: Some(n), ..acc },
        _ => acc,
    }
}

/// One optional presence line at the front of a device body.
pub proof fn lemma_dev_opt_present(acc: DeviceInfoV, p: Option<Present>, rest: Seq<u8>)
    ensures
        wf_body(
            ser_opt_text(
                DevField::Present,
                match p {
                    Some(q) => Some(present_token(q)),
                    None => None,
                },
            ),
        ),
        interp_device_from(
            acc,
            ser_opt_text(
                DevField::Present,
                match p {
                    Some(q) => Some(present_token(q)),
                    None => None,
                },
            ) + rest,
        ) == interp_device_from(
            match p {
                Some(q) => DeviceInfoV { present: Some(q), ..acc },
                None => acc,
            },
            rest,
        ),
{
    lemma_dev_keys();
    lemma_present_toks();
    match p {
        Some(q) => {
            assert(wf_text(present_token(q)));
            assert(key_text_ok(dev_label(DevField::Present)));
            assert(wf_key(dev_label(DevField::Present)));
            lemma_dev_step(acc, dev_label(DevField::Present), present_token(q), rest);
            lemma_wf_kv_line(dev_label(DevField::Present), present_token(q));
            assert(dev_apply(acc, dev_label(DevField::Present), present_token(q)) == Some(
                DeviceInfoV { present: Some(q), ..acc },
            ));
        },
        None => {
            let e = ser_opt_text(DevField::Present, None::<Seq<u8>>);
            assert(e =~= Seq::<u8>::empty());
            assert(e + rest =~= rest);
        },
    }
}

/// One optional text line at the front of a device body.
pub proof fn lemma_dev_opt_text(acc: DeviceInfoV, f: DevField, v: Option<Seq<u8>>, rest: Seq<u8>)
    requires
        f == DevField::Model || f == DevField::Friendly || f == DevField::Unique,
        match v {
            Some(t) => wf_text(t),
            None => true,
        },
    ensures
        wf_body(ser_opt_text(f, v)),
        interp_device_from(acc, ser_opt_text(f, v) + rest) == interp_device_from(
            match v {
                Some(t) => set_text_field(acc, f, t),
                None => acc,
            },
            rest,
        ),
{
    lemma_dev_keys();
    match v {
        Some(t) => {
            assert(key_text_ok(dev_label(f)));
            assert(wf_key(dev_label(f)));
            lemma_dev_step(acc, dev_label(f), t, rest);
            lemma_wf_kv_line(dev_label(f), t);
            assert(dev_apply(acc, dev_label(f), t) == Some(set_text_field(acc, f, t)));
        },
        None => {
            let e = ser_opt_text(f, v);
            assert(e =~= Seq::<u8>::empty());
            assert(e + rest =~= rest);
        },
    }
}

/// One optional count line at the front of a device body.
pub proof fn lemma_dev_opt_count(acc: DeviceInfoV, f: DevField, v: Option<u32>, rest: Seq<u8>)
    requires
        f == DevField::Inputs || f == DevField::Processing || f == DevField::Outputs || f
            == DevField::Monitoring || f == DevField::Serial,
    ensures
        wf_body(ser_opt_count(f, v)),
        interp_device_from(acc, ser_opt_count(f, v) + rest) == interp_device_from(
            match v {
                Some(n) => set_count_field(acc, f, n),
                None => acc,
            },
            rest,
        ),
{
    lemma_dev_keys();
    match v {
        Some(n) => {
            lemma_dec_repr_text(n as nat);
            lemma_parse_count_of(n);
            assert(key_text_ok(dev_label(f)));
            assert(wf_key(dev_label(f)));
            lemma_dev_step(acc, dev_label(f), dec_repr(n as nat), rest);
            lemma_wf_kv_line(dev_label(f), dec_repr(n as nat));
            assert(dev_apply(acc, dev_label(f), dec_repr(n as nat)) == Some(
                set_count_field(acc, f, n),
            ));
        },
        None => {
            let e = ser_opt_count(f, v);
            assert(e =~= Seq::<u8>::empty());
            assert(e + rest =~= rest);
        },
    }
}

/// Interpreting a device body made of two parts: the first part folds into
/// the accumulator, then the second continues.
proof fn lemma_interp_device_append(acc: DeviceInfoV, x: Seq<u8>, y: Seq<u8>)
    requires
        wf_body(x),
    ensures
        interp_device_from(acc, x + y) == (match interp_device_from(acc, x) {
            None => None::<DeviceInfoV>,
            Some(a2) => interp_device_from(a2, y),
        }),
    decreases x.len(),
{
    if x.len() == 0 {
        assert(x + y =~= y);
    } else {
        let nl = find_byte(x, 10);
        lemma_find_byte(x, 10);
        let u = x + y;
        assert forall|j: int| 0 <= j < nl implies u[j] != 10 by {
            assert(u[j] == x[j]);
        }
        assert(u[nl] == x[nl]);
        lemma_find_byte_at(u, 10, nl);
        assert(u.take(nl) =~= x.take(nl));
        assert(u.skip(nl + 1) =~= x.skip(nl + 1) + y);
        match parse_kv_line(x.take(nl)) {
            None => {},
            Some(kv) => {
                match dev_apply(acc, kv.0, kv.1) {
                    None => {},
                    Some(a2) => {
                        lemma_interp_device_append(a2, x.skip(nl + 1), y);
                    },
                }
            },
        }
    }
}

/// One optional field alone, as a body of its own.
proof fn lemma_dev_present_alone(acc: DeviceInfoV, p: Option<Present>)
    ensures
        wf_body(
            ser_opt_text(
                DevField::Present,
                match p {
                    Some(q) => Some(present_token(q)),
                    None => None,
                },
            ),
        ),
        interp_device_from(
            acc,
            ser_opt_text(
                DevField::Present,
                match p {
                    Some(q) => Some(present_token(q)),
                    None => None,
                },
            ),
        ) == Some(
            match p {
                Some(q) => DeviceInfoV { present: Some(q), ..acc },
                None => acc,
            },
        ),
{
    let a = ser_opt_text(
        DevField::Present,
        match p {
            Some(q) => Some(present_token(q)),
            None => None,
        },
    );
    lemma_dev_opt_present(acc, p, Seq::<u8>::empty());
    assert(a + Seq::<u8>::empty() =~= a);
}

proof fn lemma_dev_text_alone(acc: DeviceInfoV, f: DevField, v: Option<Seq<u8>>)
    requires
        f == DevField::Model || f == DevField::Friendly || f == DevField::Unique,
        match v {
            Some(t) => wf_text(t),
            None => true,
        },
    ensures
        wf_body(ser_opt_text(f, v)),
        interp_device_from(acc, ser_opt_text(f, v)) == Some(
            match v {
                Some(t) => set_text_field(acc, f, t),
                None => acc,
            },
        ),
{
    lemma_dev_opt_text(acc, f, v, Seq::<u8>::empty());
    assert(ser_opt_text(f, v) + Seq::<u8>::empty() =~= ser_opt_text(f, v));
}

proof fn lemma_dev_count_alone(acc: DeviceInfoV, f: DevField, v: Option<u32>)
    requires
        f == DevField::Inputs || f == DevField::Processing || f == DevField::Outputs || f
            == DevField::Monitoring || f == DevField::Serial,
    ensures
        wf_body(ser_opt_count(f, v)),
        interp_device_from(acc, ser_opt_count(f, v)) == Some(
            match v {
                Some(n) => set_count_field(acc, f, n),
                None => acc,
            },
        ),
{
    lemma_dev_opt_count(acc, f, v, Seq::<u8>::empty());
    assert(ser_opt_count(f, v) + Seq::<u8>::empty() =~= ser_opt_count(f, v));
}

/// The serialized device body is well formed and parses back to its fields.
#[verifier::rlimit(100)]
pub proof fn lemma_device_body(d: DeviceInfoV)
    requires
        wf_device(d),
    ensures
        wf_body(ser_device_body(d)),
        interp_device_from(empty_device(), ser_device_body(d)) == Some(d),
{
    let acc0 = empty_device();
    let a1 = ser_opt_text(
        DevField::Present,
        match d.present {
            Some(p) => Some(present_token(p)),
            None => None,
        },
    );
    let a2 = ser_opt_text(DevField::Model, d.model_name);
    let a3 = ser_opt_text(DevField::Friendly, d.friendly_name);
    let a4 = ser_opt_text(DevField::Unique, d.unique_id);
    let a5 = ser_opt_count(DevField::Inputs, d.video_inputs);
    let a6 = ser_opt_count(DevField::Processing, d.video_processing_units);
    let a7 = ser_opt_count(DevField::Outputs, d.video_outputs);
    let a8 = ser_opt_count(DevField::Monitoring, d.video_monitoring_outputs);
    let a9 = ser_opt_count(DevField::Serial, d.serial_ports);
    let acc1 = DeviceInfoV { present: d.present, ..acc0 };
    let acc2 = DeviceInfoV { model_name: d.model_name, ..acc1 };
    let acc3 = DeviceInfoV { friendly_name: d.friendly_name, ..acc2 };
    let acc4 = DeviceInfoV { unique_id: d.unique_id, ..acc3 };
    let acc5 = DeviceInfoV { video_inputs: d.video_inputs, ..acc4 };
    let acc6 = DeviceInfoV { video_processing_units: d.video_processing_units, ..acc5 };
    let acc7 = DeviceInfoV { video_outputs: d.video_outputs, ..acc6 };
    let acc8 = DeviceInfoV { video_monitoring_outputs: d.video_monitoring_outputs, ..acc7 };
    let acc9 = DeviceInfoV { serial_ports: d.serial_ports, ..acc8 };
    lemma_dev_present_alone(acc0, d.present);
    let p1 = a1;
    assert(interp_device_from(acc0, p1) == Some(acc1));
    lemma_dev_text_alone(acc1, DevField::Model, d.model_name);
    lemma_interp_device_append(acc0, p1, a2);
    lemma_wf_body_append(p1, a2);
    let p2 = p1 + a2;
    assert(interp_device_from(acc0, p2) == Some(acc2));
    lemma_dev_text_alone(acc2, DevField::Friendly, d.friendly_name);
    lemma_interp_device_append(acc0, p2, a3);
    lemma_wf_body_append(p2, a3);
    let p3 = p2 + a3;
    assert(interp_device_from(acc0, p3) == Some(acc3));
    lemma_dev_text_alone(acc3, DevField::Unique, d.unique_id);
    lemma_interp_device_append(acc0, p3, a4);
    lemma_wf_body_append(p3, a4);
    let p4 = p3 + a4;
    assert(interp_device_from(acc0, p4) == Some(acc4));
    lemma_dev_count_alone(acc4, DevField::Inputs, d.video_inputs);
    lemma_interp_device_append(acc0, p4, a5);
    lemma_wf_body_append(p4, a5);
    let p5 = p4 + a5;
    assert(interp_device_from(acc0, p5) == Some(acc5));
    lemma_dev_count_alone(acc5, DevField::Processing, d.video_processing_units);
    lemma_interp_device_append(acc0, p5, a6);
    lemma_wf_body_append(p5, a6);
    let p6 = p5 + a6;
    assert(interp_device_from(acc0, p6) == Some(acc6));
    lemma_dev_count_alone(acc6, DevField::Outputs, d.video_outputs);
    lemma_interp_device_append(acc0, p6, a7);
    lemma_wf_body_append(p6, a7);
    let p7 = p6 + a7;
    assert(interp_device_from(acc0, p7) == Some(acc7));
    lemma_dev_count_alone(acc7, DevField::Monitoring, d.video_monitoring_outputs);
    lemma_interp_device_append(acc0, p7, a8);
    lemma_wf_body_append(p7, a8);
    let p8 = p7 + a8;
    assert(interp_device_from(acc0, p8) == Some(acc8));
    lemma_dev_count_alone(acc8, DevField::Serial, d.serial_ports);
    lemma_interp_device_append(acc0, p8, a9);
    lemma_wf_body_append(p8, a9);
    let p9 = p8 + a9;
    assert(interp_device_from(acc0, p9) == Some(acc9));

    assert(ser_device_known(d) == p9);
    match d.unknown_fields {
        Some(ps) => {
            lemma_dev_unknowns(acc9, ps);
            lemma_interp_device_append(acc0, p9, ser_kvpairs(ps));
            lemma_wf_body_append(p9, ser_kvpairs(ps));
            lemma_dev_push_pairs(acc9, ps);
            assert(acc9.unknown_fields is None);
            assert(dev_push_pairs(acc9, ps) == d);
        },
        None => {
            assert(ser_device_body(d) =~= p9);
            assert(acc9 == d);
        },
    }
}

// ------------------------------------------------------------------
// The block frame
// ------------------------------------------------------------------
/// Parsing a framed block from the front of a stream finds exactly its
/// header and body and leaves the rest alone.
pub proof fn lemma_block_frame(h: Seq<u8>, b: Seq<u8>, rest: Seq<u8>)
    requires
        header_text_ok(h),
        wf_body(b),
    ensures
        spec_parse_block(h + nl1() + b + nl1() + rest) == (match interp_block(h, b) {
            None => SpecParse::Malformed,
            Some(msg) => SpecParse::Parsed { msg, len: h.len() as int + 1 + b.len() as int + 1 },
        }),
{
    let u = h + nl1() + b + nl1() + rest;
    assert(u[0] == h[0]);
    lemma_count_leading_from(u, |q: u8| is_wsb(q), 0);
    assert(u.skip(0) =~= u);
    assert forall|j: int| 0 <= j < h.len() implies u[j] != 10 by {
        assert(u[j] == h[j]);
    }
    assert(u[h.len() as int] == nl1()[0]);
    lemma_find_byte_at(u, 10, h.len() as int);
    assert(u.take(h.len() as int) =~= h);
    lemma_trim_fixed(h);
    assert(u.skip(h.len() as int + 1) =~= b + seq![10u8] + rest);
    lemma_split_of_wf(b, rest);
}

// ------------------------------------------------------------------
// The round-trip law
// ------------------------------------------------------------------
/// Serialize then parse is the identity: for every well-formed message, the
/// serialized block followed by any further bytes parses back to exactly that
/// message, consuming exactly the serialized bytes. Every message the parser
/// itself produces is well formed, so a received message can always be
/// forwarded verbatim.
#[verifier::rlimit(100)]
pub proof fn lemma_roundtrip(m: MsgV, rest: Seq<u8>)
    requires
        wf_msg(m),
    ensures
        spec_parse_block(spec_serialize(m) + rest) == (SpecParse::Parsed {
            msg: m,
            len: spec_serialize(m).len() as int,
        }),
{
    lemma_headers();
    match m {
        MsgV::Preamble(p) => {
            let hh = spec_header(HeaderKind::Preamble);
            let bb = ser_kv_line(version_key(), p.version);
            lemma_preamble_body(p.version);
            lemma_block_frame(hh, bb, rest);
            assert(hh + nl1() + bb + nl1() + rest =~= spec_serialize(m) + rest);
            assert(classify(hh) == Some(HeaderKind::Preamble));
            assert(interp_block(hh, bb) == Some(m));
            assert(spec_serialize(m).len() == hh.len() + 1 + bb.len() + 1);
        },
        MsgV::DeviceInfo(d) => {
            let hh = spec_header(HeaderKind::Device);
            let bb = ser_device_body(d);
            lemma_device_body(d);
            lemma_block_frame(hh, bb, rest);
            assert(hh + nl1() + bb + nl1() + rest =~= spec_serialize(m) + rest);
            assert(classify(hh) == Some(HeaderKind::Device));
            assert(interp_block(hh, bb) == Some(m));
            assert(spec_serialize(m).len() == hh.len() + 1 + bb.len() + 1);
        },
        MsgV::InputLabels(ls) => {
            let hh = spec_header(HeaderKind::InputLabels);
            let bb = ser_labels(ls);
            lemma_labels_body(ls);
            lemma_block_frame(hh, bb, rest);
            assert(hh + nl1() + bb + nl1() + rest =~= spec_serialize(m) + rest);
            assert(classify(hh) == Some(HeaderKind::InputLabels));
            assert(interp_block(hh, bb) == Some(m));
            assert(spec_serialize(m).len() == hh.len() + 1 + bb.len() + 1);
        },
        MsgV::OutputLabels(ls) => {
            let hh = spec_header(HeaderKind::OutputLabels);
            let bb = ser_labels(ls);
            lemma_labels_body(ls);
            lemma_block_frame(hh, bb, rest);
            assert(hh + nl1() + bb + nl1() + rest =~= spec_serialize(m) + rest);
            assert(classify(hh) == Some(HeaderKind::OutputLabels));
            assert(interp_block(hh, bb) == Some(m));
            assert(spec_serialize(m).len() == hh.len() + 1 + bb.len() + 1);
        },
        MsgV::MonitorOutputLabels(ls) => {
            let hh = spec_header(HeaderKind::MonitorOutputLabels);
            let bb = ser_labels(ls);
            lemma_labels_body(ls);
            lemma_block_frame(hh, bb, rest);
            assert(hh + nl1() + bb + nl1() + rest =~= spec_serialize(m) + rest);
            assert(classify(hh) == Some(HeaderKind::MonitorOutputLabels));
            assert(interp_block(hh, bb) == Some(m));
            assert(spec_serialize(m).len() == hh.len() + 1 + bb.len() + 1);
        },
        MsgV::SerialPortLabels(ls) => {
            let hh = spec_header(HeaderKind::SerialPortLabels);
            let bb = ser_labels(ls);
            lemma_labels_body(ls);
            lemma_block_frame(hh, bb, rest);
            assert(hh + nl1() + bb + nl1() + rest =~= spec_serialize(m) + rest);
            assert(classify(hh) == Some(HeaderKind::SerialPortLabels));
            assert(interp_block(hh, bb) == Some(m));
            assert(spec_serialize(m).len() == hh.len() + 1 + bb.len() + 1);
        },
        MsgV::FrameLabels(ls) => {
            let hh = spec_header(HeaderKind::FrameLabels);
            let bb = ser_labels(ls);
            lemma_labels_body(ls);
            lemma_block_frame(hh, bb, rest);
            assert(hh + nl1() + bb + nl1() + rest =~= spec_serialize(m) + rest);
            assert(classify(hh) == Some(HeaderKind::FrameLabels));
            assert(interp_block(hh, bb) == Some(m));
            assert(spec_serialize(m).len() == hh.len() + 1 + bb.len() + 1);
        },
        MsgV::VideoOutputRouting(rs) => {
            let hh = spec_header(HeaderKind::VideoOutputRouting);
            let bb = ser_routes(rs);
            lemma_routes_body(rs);
            lemma_block_frame(hh, bb, rest);
            assert(hh + nl1() + bb + nl1() + rest =~= spec_serialize(m) + rest);
            assert(classify(hh) == Some(HeaderKind::VideoOutputRouting));
            assert(interp_block(hh, bb) == Some(m));
            assert(spec_serialize(m).len() == hh.len() + 1 + bb.len() + 1);
        },
        MsgV::VideoMonitoringOutputRouting(rs) => {
            let hh = spec_header(HeaderKind::VideoMonitoringOutputRouting);
            let bb = ser_routes(rs);
            lemma_routes_body(rs);
            lemma_block_frame(hh, bb, rest);
            assert(hh + nl1() + bb + nl1() + rest =~= spec_serialize(m) + rest);
            assert(classify(hh) == Some(HeaderKind::VideoMonitoringOutputRouting));
            assert(interp_block(hh, bb) == Some(m));
            assert(spec_serialize(m).len() == hh.len() + 1 + bb.len() + 1);
        },
        MsgV::SerialPortRouting(rs) => {
            let hh = spec_header(HeaderKind::SerialPortRouting);
            let bb = ser_routes(rs);
            lemma_routes_body(rs);
            lemma_block_frame(hh, bb, rest);
            assert(hh + nl1() + bb + nl1() + rest =~= spec_serialize(m) + rest);
            assert(classify(hh) == Some(HeaderKind::SerialPortRouting));
            assert(interp_block(hh, bb) == Some(m));
            assert(spec_serialize(m).len() == hh.len() + 1 + bb.len() + 1);
        },
        MsgV::ProcessingUnitRouting(rs) => {
            let hh = spec_header(HeaderKind::ProcessingUnitRouting);
            let bb = ser_routes(rs);
            lemma_routes_body(rs);
            lemma_block_frame(hh, bb, rest);
            assert(hh + nl1() + bb + nl1() + rest =~= spec_serialize(m) + rest);
            assert(classify(hh) == Some(HeaderKind::ProcessingUnitRouting));
            assert(interp_block(hh, bb) == Some(m));
            assert(spec_serialize(m).len() == hh.len() + 1 + bb.len() + 1);
        },
        MsgV::FrameBufferRouting(rs) => {
            let hh = spec_header(HeaderKind::FrameBufferRouting);
            let bb = ser_routes(rs);
            lemma_routes_body(rs);
            lemma_block_frame(hh, bb, rest);
            assert(hh + nl1() + bb + nl1() + rest =~= spec_serialize(m) + rest);
            assert(classify(hh) == Some(HeaderKind::FrameBufferRouting));
            assert(interp_block(hh, bb) == Some(m));
            assert(spec_serialize(m).len() == hh.len() + 1 + bb.len() + 1);
        },
        MsgV::VideoOutputLocks(xs) => {
            let hh = spec_header(HeaderKind::VideoOutputLocks);
            let bb = ser_locks(xs);
            lemma_locks_body(xs);
            lemma_block_frame(hh, bb, rest);
            assert(hh + nl1() + bb + nl1() + rest =~= spec_serialize(m) + rest);
            assert(classify(hh) == Some(HeaderKind::VideoOutputLocks));
            assert(interp_block(hh, bb) == Some(m));
            assert(spec_serialize(m).len() == hh.len() + 1 + bb.len() + 1);
        },
        MsgV::MonitoringOutputLocks(xs) => {
            let hh = spec_header(HeaderKind::MonitoringOutputLocks);
            let bb = ser_locks(xs);
            lemma_locks_body(xs);
            lemma_block_frame(hh, bb, rest);
            assert(hh + nl1() + bb + nl1() + rest =~= spec_serialize(m) + rest);
            assert(classify(hh) == Some(HeaderKind::MonitoringOutputLocks));
            assert(interp_block(hh, bb) == Some(m));
            assert(spec_serialize(m).len() == hh.len() + 1 + bb.len() + 1);
        },
        MsgV::SerialPortLocks(xs) => {
            let hh = spec_header(HeaderKind::SerialPortLocks);
            let bb = ser_locks(xs);
            lemma_locks_body(xs);
            lemma_block_frame(hh, bb, rest);
            assert(hh + nl1() + bb + nl1() + rest =~= spec_serialize(m) + rest);
            assert(classify(hh) == Some(HeaderKind::SerialPortLocks));
            assert(interp_block(hh, bb) == Some(m));
            assert(spec_serialize(m).len() == hh.len() + 1 + bb.len() + 1);
        },
        MsgV::ProcessingUnitLocks(xs) => {
            let hh = spec_header(HeaderKind::ProcessingUnitLocks);
            let bb = ser_locks(xs);
            lemma_locks_body(xs);
            lemma_block_frame(hh, bb, rest);
            assert(hh + nl1() + bb + nl1() + rest =~= spec_serialize(m) + rest);
            assert(classify(hh) == Some(HeaderKind::ProcessingUnitLocks));
            assert(interp_block(hh, bb) == Some(m));
            assert(spec_serialize(m).len() == hh.len() + 1 + bb.len() + 1);
        },
        MsgV::FrameBufferLocks(xs) => {
            let hh = spec_header(HeaderKind::FrameBufferLocks);
            let bb = ser_locks(xs);
            lemma_locks_body(xs);
            lemma_block_frame(hh, bb, rest);
            assert(hh + nl1() + bb + nl1() + rest =~= spec_serialize(m) + rest);
            assert(classify(hh) == Some(HeaderKind::FrameBufferLocks));
            assert(interp_block(hh, bb) == Some(m));
            assert(spec_serialize(m).len() == hh.len() + 1 + bb.len() + 1);
        },
        MsgV::VideoInputStatus(ps) => {
            let hh = spec_header(HeaderKind::VideoInputStatus);
            let bb = ser_ports(ps);
            lemma_ports_body(ps);
            lemma_block_frame(hh, bb, rest);
            assert(hh + nl1() + bb + nl1() + rest =~= spec_serialize(m) + rest);
            assert(classify(hh) == Some(HeaderKind::VideoInputStatus));
            assert(interp_block(hh, bb) == Some(m));
            assert(spec_serialize(m).len() == hh.len() + 1 + bb.len() + 1);
        },
        MsgV::VideoOutputStatus(ps) => {
            let hh = spec_header(HeaderKind::VideoOutputStatus);
            let bb = ser_ports(ps);
            lemma_ports_body(ps);
            lemma_block_frame(hh, bb, rest);
            assert(hh + nl1() + bb + nl1() + rest =~= spec_serialize(m) + rest);
            assert(classify(hh) == Some(HeaderKind::VideoOutputStatus));
            assert(interp_block(hh, bb) == Some(m));
            assert(spec_serialize(m).len() == hh.len() + 1 + bb.len() + 1);
        },
        MsgV::SerialPortStatus(ps) => {
            let hh = spec_header(HeaderKind::SerialPortStatus);
            let bb = ser_ports(ps);
            lemma_ports_body(ps);
            lemma_block_frame(hh, bb, rest);
            assert(hh + nl1() + bb + nl1() + rest =~= spec_serialize(m) + rest);
            assert(classify(hh) == Some(HeaderKind::SerialPortStatus));
            assert(interp_block(hh, bb) == Some(m));
            assert(spec_serialize(m).len() == hh.len() + 1 + bb.len() + 1);
        },
        MsgV::AlarmStatus(xs) => {
            let hh = spec_header(HeaderKind::AlarmStatus);
            let bb = ser_alarms(xs);
            lemma_alarms_body(xs);
            lemma_block_frame(hh, bb, rest);
            assert(hh + nl1() + bb + nl1() + rest =~= spec_serialize(m) + rest);
            assert(classify(hh) == Some(HeaderKind::AlarmStatus));
            assert(interp_block(hh, bb) == Some(m));
            assert(spec_serialize(m).len() == hh.len() + 1 + bb.len() + 1);
        },
        MsgV::Configuration(xs) => {
            let hh = spec_header(HeaderKind::Configuration);
            let bb = ser_settings(xs);
            lemma_settings_body(xs);
            lemma_block_frame(hh, bb, rest);
            assert(hh + nl1() + bb + nl1() + rest =~= spec_serialize(m) + rest);
            assert(classify(hh) == Some(HeaderKind::Configuration));
            assert(interp_block(hh, bb) == Some(m));
            assert(spec_serialize(m).len() == hh.len() + 1 + bb.len() + 1);
        },
        MsgV::ACK => {
            let hh = spec_header(HeaderKind::Ack);
            let bb = Seq::<u8>::empty();
            assert(wf_body(bb));
            lemma_block_frame(hh, bb, rest);
            assert(hh + nl1() + bb + nl1() + rest =~= spec_serialize(m) + rest);
            assert(classify(hh) == Some(HeaderKind::Ack));
            assert(interp_block(hh, bb) == Some(m));
            assert(spec_serialize(m).len() == hh.len() + 1 + bb.len() + 1);
        },
        MsgV::NAK => {
            let hh = spec_header(HeaderKind::Nak);
            let bb = Seq::<u8>::empty();
            assert(wf_body(bb));
            lemma_block_frame(hh, bb, rest);
            assert(hh + nl1() + bb + nl1() + rest =~= spec_serialize(m) + rest);
            assert(classify(hh) == Some(HeaderKind::Nak));
            assert(interp_block(hh, bb) == Some(m));
            assert(spec_serialize(m).len() == hh.len() + 1 + bb.len() + 1);
        },
        MsgV::Ping => {
            let hh = spec_header(HeaderKind::Ping);
            let bb = Seq::<u8>::empty();
            assert(wf_body(bb));
            lemma_block_frame(hh, bb, rest);
            assert(hh + nl1() + bb + nl1() + rest =~= spec_serialize(m) + rest);
            assert(classify(hh) == Some(HeaderKind::Ping));
            assert(interp_block(hh, bb) == Some(m));
            assert(spec_serialize(m).len() == hh.len() + 1 + bb.len() + 1);
        },
        MsgV::EndPrelude => {
            let hh = spec_header(HeaderKind::EndPrelude);
            let bb = Seq::<u8>::empty();
            assert(wf_body(bb));
            lemma_block_frame(hh, bb, rest);
            assert(hh + nl1() + bb + nl1() + rest =~= spec_serialize(m) + rest);
            assert(classify(hh) == Some(HeaderKind::EndPrelude));
            assert(interp_block(hh, bb) == Some(m));
            assert(spec_serialize(m).len() == hh.len() + 1 + bb.len() + 1);
        },
        MsgV::UnknownMessage(h, b) => {
            lemma_block_frame(h, b, rest);
            assert(h + nl1() + b + nl1() + rest =~= spec_serialize(m) + rest);
            assert(interp_block(h, b) == Some(m));
            assert(spec_serialize(m).len() == h.len() + 1 + b.len() + 1);
        },
    }
}

/// An unrecognized block is preserved verbatim: serializing it and parsing
/// the bytes back yields the same header and body, byte for byte.
pub proof fn lemma_unknown_preserved(h: Seq<u8>, b: Seq<u8>, rest: Seq<u8>)
    requires
        wf_msg(MsgV::UnknownMessage(h, b)),
    ensures
        spec_parse_block(spec_serialize(MsgV::UnknownMessage(h, b)) + rest) == (SpecParse::Parsed {
            msg: MsgV::UnknownMessage(h, b),
            len: spec_serialize(MsgV::UnknownMessage(h, b)).len() as int,
        }),
{
    lemma_roundtrip(MsgV::UnknownMessage(h, b), rest);
}

// ------------------------------------------------------------------
// The streaming law
// ------------------------------------------------------------------

/// The consumed count of a found body split is positive and within bounds.
proof fn lemma_split_bounds(s: Seq<u8>)
    requires
        split_body(s) is Found,
    ensures
        0 < split_body(s)->Found_advance <= s.len(),
    decreases s.len(),
{
    let nl = find_byte(s, 10);
    lemma_find_byte(s, 10);
    if !is_blank_line(s.take(nl)) {
        lemma_split_bounds(s.skip(nl + 1));
    }
}

/// Cutting a body before its blank-line terminator leaves it incomplete.
proof fn lemma_split_prefix(s: Seq<u8>, j: int)
    requires
        split_body(s) is Found,
        0 <= j < split_body(s)->Found_advance,
    ensures
        split_body(s.take(j)) is Incomplete,
    decreases s.len(),
{
    lemma_split_bounds(s);
    let nl = find_byte(s, 10);
    lemma_find_byte(s, 10);
    let t = s.take(j);
    if j <= nl {
        assert forall|q: int| 0 <= q < t.len() implies t[q] != 10 by {
            assert(t[q] == s[q]);
        }
        lemma_find_byte(t, 10);
        if find_byte(t, 10) >= 0 {
            assert(t[find_byte(t, 10)] == 10);
        }
        assert(find_byte(t, 10) == -1 || find_byte(t, 10) >= t.len());
        if find_byte(t, 10) != -1 {
            assert(false);
        }
    } else {
        assert forall|q: int| 0 <= q < nl implies t[q] != 10 by {
            assert(t[q] == s[q]);
        }
        assert(t[nl] == s[nl]);
        lemma_find_byte_at(t, 10, nl);
        assert(t.take(nl) =~= s.take(nl));
        if is_blank_line(s.take(nl)) {
            assert(split_body(s)->Found_advance == nl + 1);
            assert(false);
        }
        let s2 = s.skip(nl + 1);
        assert(split_body(s2) is Found);
        assert(t.skip(nl + 1) =~= s2.take(j - nl - 1));
        lemma_split_prefix(s2, j - nl - 1);
    }
}

/// No proper prefix of a parsed block parses: it is always `Incomplete`, so
/// a streaming reader may buffer bytes and retry without losing anything.
pub proof fn lemma_prefix_incomplete(s: Seq<u8>, k: int)
    requires
        spec_parse_block(s) is Parsed,
        0 <= k < spec_parse_block(s)->Parsed_len,
    ensures
        spec_parse_block(s.take(k)) == SpecParse::Incomplete,
{
    let w = count_leading(s, |b: u8| is_wsb(b));
    lemma_count_leading(s, |b: u8| is_wsb(b));
    let t = s.skip(w);
    let nl = find_byte(t, 10);
    lemma_find_byte(t, 10);
    lemma_split_bounds(t.skip(nl + 1));
    assert(spec_parse_block(s)->Parsed_len <= s.len());
    let p = s.take(k);
    if k <= w {
        assert forall|q: int| 0 <= q < p.len() implies is_wsb(#[trigger] p[q]) by {
            assert(p[q] == s[q]);
        }
        lemma_count_leading_from(p, |b: u8| is_wsb(b), k);
        let tp = p.skip(k);
        assert(tp =~= Seq::<u8>::empty());
        lemma_find_byte(tp, 10);
    } else {
        assert forall|q: int| 0 <= q < w implies is_wsb(#[trigger] p[q]) by {
            assert(p[q] == s[q]);
        }
        assert(p[w] == s[w]);
        assert(!is_wsb(p[w]));
        lemma_count_leading_from(p, |b: u8| is_wsb(b), w);
        let tp = p.skip(w);
        assert(tp =~= t.take(k - w));
        if k - w <= nl {
            assert forall|q: int| 0 <= q < tp.len() implies tp[q] != 10 by {
                assert(tp[q] == t[q]);
            }
            lemma_find_byte(tp, 10);
            if find_byte(tp, 10) != -1 {
                assert(tp[find_byte(tp, 10)] == 10);
                assert(false);
            }
        } else {
            assert forall|q: int| 0 <= q < nl implies tp[q] != 10 by {
                assert(tp[q] == t[q]);
            }
            assert(tp[nl] == t[nl]);
            lemma_find_byte_at(tp, 10, nl);
            assert(tp.take(nl) =~= t.take(nl));
            let rr = t.skip(nl + 1);
            assert(split_body(rr) is Found);
            assert(tp.skip(nl + 1) =~= rr.take(k - w - nl - 1));
            lemma_split_prefix(rr, k - w - nl - 1);
        }
    }
}

// ------------------------------------------------------------------
// Case insensitivity of headers
// ------------------------------------------------------------------
/// Two bytes with the same uppercase image have the same uppercase image in
/// sequence context; classification sees only that image, so any case
/// variant of a header line is read as the same block kind, and a
/// recognized block's interpretation does not depend on the header's case.
pub proof fn lemma_header_case_insensitive(h1: Seq<u8>, h2: Seq<u8>, body: Seq<u8>)
    requires
        upper(h1) == upper(h2),
    ensures
        classify(h1) == classify(h2),
        classify(h1) is Some ==> interp_block(h1, body) == interp_block(h2, body),
{
}

// ------------------------------------------------------------------
// Every parsed message is well formed
// ------------------------------------------------------------------
/// A trimmed value reads each of its bytes from the original.
proof fn lemma_trim_index(s: Seq<u8>)
    ensures
        trim(s).len() <= s.len(),
        0 <= count_leading(s, |b: u8| is_wsb(b)),
        trim(s).len() + count_leading(s, |b: u8| is_wsb(b)) <= s.len(),
        forall|i: int|
            0 <= i < trim(s).len() ==> #[trigger] trim(s)[i] == s[i + count_leading(
                s,
                |b: u8| is_wsb(b),
            )],
{
    lemma_count_leading(s, |b: u8| is_wsb(b));
    let t = trim_start(s);
    lemma_count_trailing(t, |b: u8| is_wsb(b));
}

/// What trim_end returns ends firm.
proof fn lemma_trim_end_result(s: Seq<u8>)
    ensures
        trim_end(s).len() <= s.len(),
        trim_end(s).len() > 0 ==> !is_wsb(trim_end(s).last()),
        forall|i: int| 0 <= i < trim_end(s).len() ==> #[trigger] trim_end(s)[i] == s[i],
{
    lemma_count_trailing(s, |b: u8| is_wsb(b));
    let ct = count_trailing(s, |b: u8| is_wsb(b));
    if ct < s.len() {
        assert(trim_end(s).last() == s[s.len() - ct - 1]);
    }
}

/// The text of a parsed label line is well formed.
proof fn lemma_parse_label_line_wf(line: Seq<u8>)
    requires
        no_nl(line),
        parse_label_line(line) is Some,
    ensures
        wf_text(parse_label_line(line)->0.name),
{
    let d = count_leading(line, |b: u8| is_digit(b));
    let rest = line.skip(d);
    lemma_count_leading(line, |b: u8| is_digit(b));
    lemma_trim_result(rest);
    lemma_trim_index(rest);
    assert forall|i: int| 0 <= i < trim(rest).len() implies #[trigger] trim(rest)[i] != 10 by {
        let cl = count_leading(rest, |b: u8| is_wsb(b));
        assert(0 <= i + cl < rest.len());
        assert(trim(rest)[i] == rest[i + cl]);
        assert(rest[i + cl] == line[i + cl + d]);
        assert(line[i + cl + d] != 10);
    }
}

/// The port token of a parsed status line is well formed.
proof fn lemma_parse_status_line_wf(line: Seq<u8>)
    requires
        no_nl(line),
        parse_status_line(line) is Some,
    ensures
        wf_port_type(parse_status_line(line)->0.port_type),
{
    let d = count_leading(line, |b: u8| is_digit(b));
    let rest = line.skip(d);
    lemma_count_leading(line, |b: u8| is_digit(b));
    lemma_trim_result(rest);
    lemma_trim_index(rest);
    assert forall|i: int| 0 <= i < trim(rest).len() implies #[trigger] trim(rest)[i] != 10 by {
        assert(trim(rest)[i] == rest[i + count_leading(rest, |b: u8| is_wsb(b))]);
        assert(rest[i + count_leading(rest, |b: u8| is_wsb(b))] == line[i + count_leading(
            rest,
            |b: u8| is_wsb(b),
        ) + d]);
    }
}

/// The key and value of a parsed key/value line are well formed.
proof fn lemma_parse_kv_line_wf(line: Seq<u8>)
    requires
        no_nl(line),
        parse_kv_line(line) is Some,
    ensures
        wf_key((parse_kv_line(line)->0).0),
        wf_text((parse_kv_line(line)->0).1),
{
    let c = find_byte(line, 58);
    lemma_find_byte(line, 58);
    let kpart = line.take(c);
    let vpart = line.skip(c + 1);
    lemma_trim_result(kpart);
    lemma_trim_index(kpart);
    lemma_trim_result(vpart);
    lemma_trim_index(vpart);
    assert forall|i: int| 0 <= i < trim(kpart).len() implies #[trigger] trim(kpart)[i] != 10
        && trim(kpart)[i] != 58 by {
        assert(trim(kpart)[i] == kpart[i + count_leading(kpart, |b: u8| is_wsb(b))]);
        assert(kpart[i + count_leading(kpart, |b: u8| is_wsb(b))] == line[i + count_leading(
            kpart,
            |b: u8| is_wsb(b),
        )]);
    }
    assert forall|i: int| 0 <= i < trim(vpart).len() implies #[trigger] trim(vpart)[i] != 10 by {
        assert(trim(vpart)[i] == vpart[i + count_leading(vpart, |b: u8| is_wsb(b))]);
        assert(vpart[i + count_leading(vpart, |b: u8| is_wsb(b))] == line[i + count_leading(
            vpart,
            |b: u8| is_wsb(b),
        ) + c + 1]);
    }
}

proof fn lemma_interp_labels_wf(b: Seq<u8>)
    requires
        interp_labels(b) is Some,
    ensures
        wf_labels(interp_labels(b)->0),
    decreases b.len(),
{
    if b.len() == 0 {
    } else {
        let nl = find_byte(b, 10);
        lemma_find_byte(b, 10);
        let line = b.take(nl);
        assert forall|j: int| 0 <= j < line.len() implies #[trigger] line[j] != 10 by {
            assert(line[j] == b[j]);
        }
        lemma_parse_label_line_wf(line);
        lemma_interp_labels_wf(b.skip(nl + 1));
        let l = parse_label_line(line)->0;
        let rest = interp_labels(b.skip(nl + 1))->0;
        assert forall|i: int| 0 <= i < (seq![l] + rest).len() implies wf_text(
            #[trigger] (seq![l] + rest)[i].name,
        ) by {
            if i == 0 {
                assert((seq![l] + rest)[i] == l);
            } else {
                assert((seq![l] + rest)[i] == rest[i - 1]);
            }
        }
    }
}

proof fn lemma_interp_ports_wf(b: Seq<u8>)
    requires
        interp_ports(b) is Some,
    ensures
        wf_ports(interp_ports(b)->0),
    decreases b.len(),
{
    if b.len() == 0 {
    } else {
        let nl = find_byte(b, 10);
        lemma_find_byte(b, 10);
        let line = b.take(nl);
        assert forall|j: int| 0 <= j < line.len() implies #[trigger] line[j] != 10 by {
            assert(line[j] == b[j]);
        }
        lemma_parse_status_line_wf(line);
        lemma_interp_ports_wf(b.skip(nl + 1));
        let p = parse_status_line(line)->0;
        let rest = interp_ports(b.skip(nl + 1))->0;
        assert forall|i: int| 0 <= i < (seq![p] + rest).len() implies wf_port_type(
            #[trigger] (seq![p] + rest)[i].port_type,
        ) by {
            if i == 0 {
                assert((seq![p] + rest)[i] == p);
            } else {
                assert((seq![p] + rest)[i] == rest[i - 1]);
            }
        }
    }
}

proof fn lemma_interp_alarms_wf(b: Seq<u8>)
    requires
        interp_alarms(b) is Some,
    ensures
        wf_alarms(interp_alarms(b)->0),
    decreases b.len(),
{
    if b.len() == 0 {
    } else {
        let nl = find_byte(b, 10);
        lemma_find_byte(b, 10);
        let line = b.take(nl);
        assert forall|j: int| 0 <= j < line.len() implies #[trigger] line[j] != 10 by {
            assert(line[j] == b[j]);
        }
        lemma_parse_kv_line_wf(line);
        lemma_interp_alarms_wf(b.skip(nl + 1));
        let kv = parse_kv_line(line)->0;
        let a = AlarmV { name: kv.0, status: kv.1 };
        let rest = interp_alarms(b.skip(nl + 1))->0;
        assert forall|i: int| 0 <= i < (seq![a] + rest).len() implies wf_key(
            #[trigger] (seq![a] + rest)[i].name,
        ) && wf_text((seq![a] + rest)[i].status) by {
            if i == 0 {
                assert((seq![a] + rest)[i] == a);
            } else {
                assert((seq![a] + rest)[i] == rest[i - 1]);
            }
        }
    }
}

proof fn lemma_interp_settings_wf(b: Seq<u8>)
    requires
        interp_settings(b) is Some,
    ensures
        wf_settings(interp_settings(b)->0),
    decreases b.len(),
{
    if b.len() == 0 {
    } else {
        let nl = find_byte(b, 10);
        lemma_find_byte(b, 10);
        let line = b.take(nl);
        assert forall|j: int| 0 <= j < line.len() implies #[trigger] line[j] != 10 by {
            assert(line[j] == b[j]);
        }
        lemma_parse_kv_line_wf(line);
        lemma_interp_settings_wf(b.skip(nl + 1));
        let kv = parse_kv_line(line)->0;
        let a = SettingV { setting: kv.0, value: kv.1 };
        let rest = interp_settings(b.skip(nl + 1))->0;
        assert forall|i: int| 0 <= i < (seq![a] + rest).len() implies wf_key(
            #[trigger] (seq![a] + rest)[i].setting,
        ) && wf_text((seq![a] + rest)[i].value) by {
            if i == 0 {
                assert((seq![a] + rest)[i] == a);
            } else {
                assert((seq![a] + rest)[i] == rest[i - 1]);
            }
        }
    }
}

proof fn lemma_interp_device_wf(acc: DeviceInfoV, b: Seq<u8>)
    requires
        interp_device_from(acc, b) is Some,
        wf_device(acc),
    ensures
        wf_device(interp_device_from(acc, b)->0),
    decreases b.len(),
{
    if b.len() == 0 {
    } else {
        let nl = find_byte(b, 10);
        lemma_find_byte(b, 10);
        let line = b.take(nl);
        assert forall|j: int| 0 <= j < line.len() implies #[trigger] line[j] != 10 by {
            assert(line[j] == b[j]);
        }
        lemma_parse_kv_line_wf(line);
        let kv = parse_kv_line(line)->0;
        let a2 = dev_apply(acc, kv.0, kv.1)->0;
        assert(wf_device(a2)) by {
            match classify_dev_key(kv.0) {
                Some(f) => {},
                None => {
                    match acc.unknown_fields {
                        Some(ps) => {
                            let pair = KVPairV { key: kv.0, value: kv.1 };
                            assert forall|i: int|
                                0 <= i < ps.push(pair).len() implies wf_key(
                                #[trigger] ps.push(pair)[i].key,
                            ) && classify_dev_key(ps.push(pair)[i].key) is None && wf_text(
                                ps.push(pair)[i].value,
                            ) by {
                                if i < ps.len() {
                                    assert(ps.push(pair)[i] == ps[i]);
                                } else {
                                    assert(ps.push(pair)[i] == pair);
                                }
                            }
                        },
                        None => {
                            let pair = KVPairV { key: kv.0, value: kv.1 };
                            assert(Seq::empty().push(pair)[0] == pair);
                        },
                    }
                },
            }
        }
        lemma_interp_device_wf(a2, b.skip(nl + 1));
    }
}

/// A found body is itself a well-formed body.
proof fn lemma_split_wf(s: Seq<u8>)
    requires
        split_body(s) is Found,
    ensures
        wf_body(split_body(s)->Found_body),
    decreases s.len(),
{
    let nl = find_byte(s, 10);
    lemma_find_byte(s, 10);
    if is_blank_line(s.take(nl)) {
    } else {
        lemma_split_wf(s.skip(nl + 1));
        let body2 = split_body(s.skip(nl + 1))->Found_body;
        let b = s.take(nl + 1) + body2;
        assert forall|j: int| 0 <= j < nl implies b[j] != 10 by {
            assert(b[j] == s[j]);
        }
        assert(b[nl] == s[nl]);
        lemma_find_byte_at(b, 10, nl);
        assert(b.take(nl) =~= s.take(nl));
        assert(b.skip(nl + 1) =~= body2);
    }
}

/// Every message the parser produces is well formed, so what was received
/// can be serialized again and read back unchanged: the round trip holds of
/// all traffic, not only of hand-built values.
pub proof fn lemma_parsed_wf(s: Seq<u8>)
    requires
        spec_parse_block(s) is Parsed,
    ensures
        wf_msg(spec_parse_block(s)->Parsed_msg),
{
    let w = count_leading(s, |b: u8| is_wsb(b));
    lemma_count_leading(s, |b: u8| is_wsb(b));
    let t = s.skip(w);
    let nl = find_byte(t, 10);
    lemma_find_byte(t, 10);
    let header = trim_end(t.take(nl));
    let body = split_body(t.skip(nl + 1))->Found_body;
    lemma_split_wf(t.skip(nl + 1));
    let m = spec_parse_block(s)->Parsed_msg;
    match classify(header) {
        Some(HeaderKind::Preamble) => {
            let bnl = find_byte(body, 10);
            lemma_find_byte(body, 10);
            let line = body.take(bnl);
            assert forall|j: int| 0 <= j < line.len() implies #[trigger] line[j] != 10 by {
                assert(line[j] == body[j]);
            }
            let vpart = line.skip(8);
            lemma_trim_result(vpart);
            lemma_trim_index(vpart);
            assert forall|i: int| 0 <= i < trim(vpart).len() implies #[trigger] trim(vpart)[i]
                != 10 by {
                assert(trim(vpart)[i] == vpart[i + count_leading(vpart, |b: u8| is_wsb(b))]);
                assert(vpart[i + count_leading(vpart, |b: u8| is_wsb(b))] == line[i
                    + count_leading(vpart, |b: u8| is_wsb(b)) + 8]);
            }
        },
        Some(HeaderKind::Device) => {
            lemma_interp_device_wf(empty_device(), body);
        },
        Some(HeaderKind::InputLabels) => {
            lemma_interp_labels_wf(body);
        },
        Some(HeaderKind::OutputLabels) => {
            lemma_interp_labels_wf(body);
        },
        Some(HeaderKind::MonitorOutputLabels) => {
            lemma_interp_labels_wf(body);
        },
        Some(HeaderKind::SerialPortLabels) => {
            lemma_interp_labels_wf(body);
        },
        Some(HeaderKind::FrameLabels) => {
            lemma_interp_labels_wf(body);
        },
        Some(HeaderKind::VideoInputStatus) => {
            lemma_interp_ports_wf(body);
        },
        Some(HeaderKind::VideoOutputStatus) => {
            lemma_interp_ports_wf(body);
        },
        Some(HeaderKind::SerialPortStatus) => {
            lemma_interp_ports_wf(body);
        },
        Some(HeaderKind::AlarmStatus) => {
            lemma_interp_alarms_wf(body);
        },
        Some(HeaderKind::Configuration) => {
            lemma_interp_settings_wf(body);
        },
        None => {
            // The unrecognized case keeps the raw header and body; both are
            // in the shape the serializer emits.
            let raw = t.take(nl);
            lemma_trim_end_result(raw);
            assert(t[0] == s[w as int]);
            assert(!is_wsb(t[0]));
            assert(t[0] != 10);
            assert(raw[0] == t[0]);
            assert(nl > 0);
            if trim_end(raw).len() == 0 {
                lemma_count_trailing(raw, |b: u8| is_wsb(b));
                assert(is_wsb(raw[0]));
                assert(false);
            }
            assert(header[0] == raw[0]);
            assert forall|j: int| 0 <= j < header.len() implies #[trigger] header[j] != 10 by {
                assert(header[j] == raw[j]);
                assert(raw[j] == t[j]);
            }
        },
        _ => {},
    }
}

} // verus!
