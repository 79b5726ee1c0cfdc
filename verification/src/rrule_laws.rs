//! The RRULE text that a Tuta rule is written as reads back as the same
//! rule, up to the order of its advanced parts and an `UNTIL` end taken
//! down to its day or second, and writing that again gives the same text;
//! and an RRULE text of the shape that the provider writes, read into a
//! Tuta rule, is written back as the same text.

use vstd::prelude::*;

use crate::entity::{AdvancedRuleView, RepeatRuleView, TutaEventView};
use crate::event::EventView;
use crate::mapping::{
    MappingError, all_day_spec, caldir_event_outcome, start_rule_zone, tuta_event_matches,
    advanced_of, advanced_piece, advanced_types_known, advanced_upto, end_of, end_text, rule_core,
    rules_from_pieces, sorted_rule_name, frequency_name, frequency_of, interval_of, join_with,
    lookup, parse_parts, rrule_parts, rrule_text, rule_name, rule_type, values_of_type,
    until_back, until_reads_back, until_step, until_text, until_writable, until_shaped,
    until_echoes, until_millis,
};
use crate::time::{DAY_MS, MIN_MS, in_range};
use crate::text::{
    dec, dec_int, find_char, is_digit, lemma_dec_digits, lemma_find_char, lemma_parse_dec,
    lemma_split_nonempty, parse_i64_spec, split_on, upper_seq,
};

verus! {

/// Whether the character does not occur in the text.
pub open spec fn free_of(s: Seq<char>, c: char) -> bool {
    forall|i: int| 0 <= i < s.len() ==> s[i] != c
}

/// A text without the separator is one piece.
pub proof fn lemma_split_single(s: Seq<char>, sep: char)
    requires
        free_of(s, sep),
    ensures
        split_on(s, sep) == seq![s],
    decreases s.len(),
{
    if s.len() == 0 {
        assert(s =~= Seq::<char>::empty());
    } else {
        let p = s.drop_last();
        lemma_split_single(p, sep);
        assert(p.push(s.last()) =~= s);
        assert(seq![p].update(0, p.push(s.last())) =~= seq![s]);
    }
}

/// Splitting texts joined by the separator splits each of them.
pub proof fn lemma_split_append(a: Seq<char>, b: Seq<char>, sep: char)
    ensures
        split_on(a + seq![sep] + b, sep) == split_on(a, sep) + split_on(b, sep),
    decreases b.len(),
{
    let s = a + seq![sep] + b;
    if b.len() == 0 {
        assert(s.drop_last() =~= a);
        assert(b =~= Seq::<char>::empty());
        assert(split_on(a, sep).push(seq![]) =~= split_on(a, sep) + split_on(b, sep));
    } else {
        let b2 = b.drop_last();
        lemma_split_append(a, b2, sep);
        assert(s.drop_last() =~= a + seq![sep] + b2);
        assert(s.last() == b.last());
        lemma_split_nonempty(b2, sep);
        lemma_split_nonempty(a, sep);
        let x = split_on(a, sep);
        let y = split_on(b2, sep);
        let rest = x + y;
        if b.last() == sep {
            assert(rest.push(seq![]) =~= x + y.push(seq![]));
        } else {
            assert(rest.update(rest.len() - 1, rest.last().push(b.last())) =~= x + y.update(
                y.len() - 1,
                y.last().push(b.last()),
            ));
        }
    }
}

/// Texts without the separator, joined by it, split back into themselves.
pub proof fn lemma_join_split(vals: Seq<Seq<char>>, sep: char)
    requires
        vals.len() > 0,
        forall|i: int| 0 <= i < vals.len() ==> free_of(#[trigger] vals[i], sep),
    ensures
        split_on(join_with(vals, sep), sep) == vals,
    decreases vals.len(),
{
    if vals.len() == 1 {
        lemma_split_single(vals[0], sep);
        assert(seq![vals[0]] =~= vals);
    } else {
        let init = vals.drop_last();
        lemma_join_split(init, sep);
        lemma_split_single(vals.last(), sep);
        lemma_split_append(join_with(init, sep), vals.last(), sep);
        assert(join_with(init, sep).push(sep) + vals.last() =~= join_with(init, sep) + seq![sep]
            + vals.last());
        assert(init + seq![vals.last()] =~= vals);
    }
}

/// The interval that the RRULE text states: at least one.
pub open spec fn written_interval(r: RepeatRuleView) -> int {
    if r.interval < 1 {
        1
    } else {
        r.interval as int
    }
}

/// Whether a Tuta rule is written as an RRULE that reads back: a known
/// frequency; no end, an end after a count it holds, or an end whose
/// `UNTIL` lies in a year from 0 to 9999 and reads back (what chrono's
/// formatting gives such an end); advanced rules of known types whose
/// values are not empty and hold no `;` or `,`.
pub open spec fn rule_readable(r: RepeatRuleView, all_day: bool) -> bool {
    &&& 0 <= r.frequency <= 3
    &&& (r.end_type == 0 || (r.end_type == 1 && r.end_value is Some) || (until_writable(r, all_day)
        && until_reads_back(r, all_day)))
    &&& advanced_types_known(r.advanced_rules)
    &&& forall|i: int|
        0 <= i < r.advanced_rules.len() ==> {
            let v = #[trigger] r.advanced_rules[i].interval;
            v.len() > 0 && free_of(v, ';') && free_of(v, ',')
        }
}

/// The `NAME=v1,v2` part of the advanced rules of type `t`.
pub open spec fn advanced_part(rules: Seq<AdvancedRuleView>, t: int) -> Seq<char> {
    rule_name(t)->0 + seq!['='] + join_with(values_of_type(rules, t), ',')
}

/// The advanced parts of the types below `k` that have values, in
/// ascending type order.
pub open spec fn advanced_parts(rules: Seq<AdvancedRuleView>, k: int) -> Seq<Seq<char>>
    decreases k,
{
    if k <= 0 {
        seq![]
    } else {
        let rest = advanced_parts(rules, k - 1);
        if values_of_type(rules, k - 1).len() == 0 {
            rest
        } else {
            rest.push(advanced_part(rules, k - 1))
        }
    }
}

/// The `FREQ`, `INTERVAL` and `COUNT` or `UNTIL` parts of a rule's RRULE text.
pub open spec fn head_parts(r: RepeatRuleView, ut: Seq<char>) -> Seq<Seq<char>> {
    let base = seq![
        "FREQ="@ + frequency_name(r.frequency as int)->0,
        "INTERVAL="@ + dec_int(written_interval(r)),
    ];
    if r.end_type == 1 {
        base.push("COUNT="@ + dec_int(r.end_value->0 as int))
    } else if r.end_type == 2 {
        base.push("UNTIL="@ + ut)
    } else {
        base
    }
}

/// The parts of a rule's RRULE text, in order.
pub open spec fn text_parts(r: RepeatRuleView, ut: Seq<char>) -> Seq<Seq<char>> {
    head_parts(r, ut) + advanced_parts(r.advanced_rules, 9)
}

proof fn lemma_join_push(xs: Seq<Seq<char>>, y: Seq<char>, sep: char)
    requires
        xs.len() > 0,
    ensures
        join_with(xs.push(y), sep) == join_with(xs, sep).push(sep) + y,
{
    assert(xs.push(y).drop_last() =~= xs);
}

/// The advanced parts joined onto the head are the head's text followed by
/// the advanced text.
proof fn lemma_join_advanced(base: Seq<Seq<char>>, rules: Seq<AdvancedRuleView>, k: int)
    requires
        base.len() > 0,
        0 <= k,
    ensures
        join_with(base + advanced_parts(rules, k), ';') == join_with(base, ';') + advanced_upto(
            rules,
            k,
        ),
    decreases k,
{
    if k == 0 {
        assert(base + advanced_parts(rules, k) =~= base);
        assert(join_with(base, ';') + advanced_upto(rules, k) =~= join_with(base, ';'));
    } else {
        lemma_join_advanced(base, rules, k - 1);
        let prev = base + advanced_parts(rules, k - 1);
        if values_of_type(rules, k - 1).len() == 0 {
            assert(advanced_upto(rules, k) =~= advanced_upto(rules, k - 1));
        } else {
            let p = advanced_part(rules, k - 1);
            assert(base + advanced_parts(rules, k) =~= prev.push(p));
            lemma_join_push(prev, p, ';');
            assert(advanced_piece(rules, k - 1) =~= seq![';'] + p);
            assert(join_with(prev, ';').push(';') + p =~= join_with(prev, ';') + (seq![';'] + p));
        }
    }
}

/// The end part of the text, with `ut` as the `UNTIL` value.
pub open spec fn end_part(r: RepeatRuleView, ut: Seq<char>) -> Seq<char> {
    if r.end_type == 1 {
        ";COUNT="@ + dec_int(r.end_value->0 as int)
    } else if r.end_type == 2 {
        ";UNTIL="@ + ut
    } else {
        seq![]
    }
}

/// A rule's parts joined by `;`: `FREQ`, `INTERVAL`, the end, then the
/// advanced parts in type order.
pub proof fn lemma_joined_text(r: RepeatRuleView, ut: Seq<char>)
    ensures
        join_with(text_parts(r, ut), ';') == "FREQ="@ + frequency_name(r.frequency as int)->0
            + ";INTERVAL="@ + dec_int(written_interval(r)) + end_part(r, ut) + advanced_upto(
            r.advanced_rules,
            9,
        ),
{
    reveal_strlit("FREQ=");
    reveal_strlit("INTERVAL=");
    reveal_strlit(";INTERVAL=");
    reveal_strlit("COUNT=");
    reveal_strlit(";COUNT=");
    reveal_strlit("UNTIL=");
    reveal_strlit(";UNTIL=");
    let f = "FREQ="@ + frequency_name(r.frequency as int)->0;
    let iv = "INTERVAL="@ + dec_int(written_interval(r));
    let head = head_parts(r, ut);
    lemma_join_advanced(head, r.advanced_rules, 9);
    let two = seq![f, iv];
    lemma_join_push(seq![f], iv, ';');
    assert(seq![f].push(iv) =~= two);
    assert(join_with(two, ';') =~= f + ";INTERVAL="@ + dec_int(written_interval(r)));
    if r.end_type == 1 {
        let c = "COUNT="@ + dec_int(r.end_value->0 as int);
        lemma_join_push(two, c, ';');
        assert(join_with(head, ';') =~= f + ";INTERVAL="@ + dec_int(written_interval(r)) + (
        ";COUNT="@ + dec_int(r.end_value->0 as int)));
    } else if r.end_type == 2 {
        let u = "UNTIL="@ + ut;
        lemma_join_push(two, u, ';');
        assert(join_with(head, ';') =~= f + ";INTERVAL="@ + dec_int(written_interval(r)) + (
        ";UNTIL="@ + ut));
    } else {
        assert(join_with(head, ';') =~= f + ";INTERVAL="@ + dec_int(written_interval(r)) + seq![]);
    }
}

/// The RRULE text of a readable rule is its parts joined by `;`.
pub proof fn lemma_text_is_joined_parts(r: RepeatRuleView, all_day: bool)
    requires
        rule_readable(r, all_day),
    ensures
        rrule_text(r, all_day) == Ok::<Seq<char>, crate::mapping::MappingError>(
            join_with(text_parts(r, until_text(r, all_day)), ';'),
        ),
{
    lemma_joined_text(r, until_text(r, all_day));
    assert(end_text(r, all_day) == Ok::<Seq<char>, crate::mapping::MappingError>(
        end_part(r, until_text(r, all_day)),
    ));
}

/// A `KEY=value` part as a key and a value.
pub open spec fn as_part(p: (Seq<char>, Seq<char>)) -> Seq<char> {
    p.0 + seq!['='] + p.1
}

pub open spec fn as_parts(ps: Seq<(Seq<char>, Seq<char>)>) -> Seq<Seq<char>> {
    ps.map_values(|p: (Seq<char>, Seq<char>)| as_part(p))
}

/// The advanced parts of the types below `k`, as keys and values.
pub open spec fn advanced_pairs(rules: Seq<AdvancedRuleView>, k: int) -> Seq<(Seq<char>, Seq<char>)>
    decreases k,
{
    if k <= 0 {
        seq![]
    } else {
        let rest = advanced_pairs(rules, k - 1);
        if values_of_type(rules, k - 1).len() == 0 {
            rest
        } else {
            rest.push((rule_name(k - 1)->0, join_with(values_of_type(rules, k - 1), ',')))
        }
    }
}

/// The `FREQ`, `INTERVAL` and `COUNT` or `UNTIL` parts, as keys and values.
pub open spec fn head_pairs(r: RepeatRuleView, ut: Seq<char>) -> Seq<(Seq<char>, Seq<char>)> {
    let base = seq![
        ("FREQ"@, frequency_name(r.frequency as int)->0),
        ("INTERVAL"@, dec_int(written_interval(r))),
    ];
    if r.end_type == 1 {
        base.push(("COUNT"@, dec_int(r.end_value->0 as int)))
    } else if r.end_type == 2 {
        base.push(("UNTIL"@, ut))
    } else {
        base
    }
}

/// The parts of a rule's RRULE text, as keys and values.
pub open spec fn text_pairs(r: RepeatRuleView, ut: Seq<char>) -> Seq<(Seq<char>, Seq<char>)> {
    head_pairs(r, ut) + advanced_pairs(r.advanced_rules, 9)
}

proof fn lemma_advanced_pairs_parts(rules: Seq<AdvancedRuleView>, k: int)
    requires
        0 <= k,
    ensures
        as_parts(advanced_pairs(rules, k)) == advanced_parts(rules, k),
    decreases k,
{
    if k > 0 {
        lemma_advanced_pairs_parts(rules, k - 1);
        let rest = advanced_pairs(rules, k - 1);
        if values_of_type(rules, k - 1).len() > 0 {
            let p = (rule_name(k - 1)->0, join_with(values_of_type(rules, k - 1), ','));
            assert(as_parts(rest.push(p)) =~= as_parts(rest).push(as_part(p)));
        }
    }
}

/// The parts of the text are its keys and values.
pub proof fn lemma_text_pairs_parts(r: RepeatRuleView, ut: Seq<char>)
    ensures
        as_parts(text_pairs(r, ut)) == text_parts(r, ut),
{
    reveal_strlit("FREQ=");
    reveal_strlit("FREQ");
    reveal_strlit("INTERVAL=");
    reveal_strlit("INTERVAL");
    reveal_strlit("COUNT=");
    reveal_strlit("COUNT");
    lemma_advanced_pairs_parts(r.advanced_rules, 9);
    let h = head_pairs(r, ut);
    let a = advanced_pairs(r.advanced_rules, 9);
    assert(as_parts(h + a) =~= as_parts(h) + as_parts(a));
    assert("FREQ"@ + seq!['='] =~= "FREQ="@);
    assert("INTERVAL"@ + seq!['='] =~= "INTERVAL="@);
    assert("COUNT"@ + seq!['='] =~= "COUNT="@);
    assert(as_part(h[0]) =~= head_parts(r, ut)[0]);
    assert(as_part(h[1]) =~= head_parts(r, ut)[1]);
    if r.end_type == 1 {
        assert(as_part(h[2]) =~= head_parts(r, ut)[2]);
    } else if r.end_type == 2 {
        reveal_strlit("UNTIL=");
        reveal_strlit("UNTIL");
        assert("UNTIL"@ + seq!['='] =~= "UNTIL="@);
        assert(as_part(h[2]) =~= head_parts(r, ut)[2]);
    }
    assert(as_parts(h) =~= head_parts(r, ut));
}

proof fn lemma_free_concat(a: Seq<char>, b: Seq<char>, c: char)
    requires
        free_of(a, c),
        free_of(b, c),
    ensures
        free_of(a + b, c),
{
    assert forall|i: int| 0 <= i < (a + b).len() implies (a + b)[i] != c by {
        if i >= a.len() {
            assert((a + b)[i] == b[i - a.len()]);
        }
    }
}

/// A decimal holds digits and perhaps a sign, no other character.
proof fn lemma_dec_free(n: int, c: char)
    requires
        !is_digit(c),
        c != '-',
    ensures
        free_of(dec_int(n), c),
{
    let m: nat = if n < 0 {
        (-n) as nat
    } else {
        n as nat
    };
    lemma_dec_digits(m);
    assert(free_of(dec(m), c));
    if n < 0 {
        lemma_free_concat(seq!['-'], dec(m), c);
    }
}

proof fn lemma_join_free(vals: Seq<Seq<char>>, sep: char, c: char)
    requires
        sep != c,
        forall|i: int| 0 <= i < vals.len() ==> free_of(#[trigger] vals[i], c),
    ensures
        free_of(join_with(vals, sep), c),
    decreases vals.len(),
{
    if vals.len() > 1 {
        lemma_join_free(vals.drop_last(), sep, c);
        let j = join_with(vals.drop_last(), sep);
        assert(free_of(j.push(sep), c)) by {
            assert forall|i: int| 0 <= i < j.push(sep).len() implies j.push(sep)[i] != c by {
                if i < j.len() {
                    assert(j.push(sep)[i] == j[i]);
                }
            }
        }
        lemma_free_concat(j.push(sep), vals.last(), c);
    } else if vals.len() == 1 {
        assert(free_of(vals[0], c));
    }
}

/// The first `=` of `key=value` follows the key when the key has none.
proof fn lemma_find_key(key: Seq<char>, value: Seq<char>)
    requires
        free_of(key, '='),
    ensures
        find_char(key + seq!['='] + value, '=') == Some(key.len() as int),
        (key + seq!['='] + value).take(key.len() as int) == key,
        (key + seq!['='] + value).skip(key.len() as int + 1) == value,
{
    let s = key + seq!['='] + value;
    lemma_find_char(s, '=');
    assert(s[key.len() as int] == '=');
    assert forall|j: int| 0 <= j < key.len() implies s[j] != '=' by {
        assert(s[j] == key[j]);
    }
    assert(s.take(key.len() as int) =~= key);
    assert(s.skip(key.len() as int + 1) =~= value);
}

/// Parts whose keys hold no `=` and are in upper case parse back into
/// their keys and values.
proof fn lemma_parse_as_parts(ps: Seq<(Seq<char>, Seq<char>)>)
    requires
        forall|i: int|
            0 <= i < ps.len() ==> free_of(#[trigger] ps[i].0, '=') && upper_seq(ps[i].0) == ps[i].0,
    ensures
        parse_parts(as_parts(ps)) == Some(ps),
    decreases ps.len(),
{
    if ps.len() == 0 {
        assert(as_parts(ps) =~= Seq::<Seq<char>>::empty());
        assert(ps =~= Seq::<(Seq<char>, Seq<char>)>::empty());
    } else {
        let init = ps.drop_last();
        lemma_parse_as_parts(init);
        assert(as_parts(ps).drop_last() =~= as_parts(init));
        let last = ps.last();
        assert(free_of(last.0, '=') && upper_seq(last.0) == last.0);
        assert(as_parts(ps).last() == as_part(last));
        lemma_find_key(last.0, last.1);
        assert(init.push(last) =~= ps);
    }
}

/// Whether a key can stand before the `=` of an RRULE part: no `=` or
/// `;`, and already in upper case.
pub open spec fn plain_key(k: Seq<char>) -> bool {
    free_of(k, '=') && free_of(k, ';') && upper_seq(k) == k
}

proof fn lemma_plain_keys()
    ensures
        plain_key("FREQ"@),
        plain_key("INTERVAL"@),
        plain_key("COUNT"@),
        plain_key("UNTIL"@),
        forall|t: int| 0 <= t < 9 ==> #[trigger] rule_name(t) is Some && plain_key(rule_name(t)->0),
{
    reveal_strlit("FREQ");
    reveal_strlit("INTERVAL");
    reveal_strlit("COUNT");
    reveal_strlit("UNTIL");
    assert(upper_seq("UNTIL"@) =~= "UNTIL"@);
    reveal_strlit("BYMINUTE");
    reveal_strlit("BYHOUR");
    reveal_strlit("BYDAY");
    reveal_strlit("BYMONTHDAY");
    reveal_strlit("BYYEARDAY");
    reveal_strlit("BYWEEKNO");
    reveal_strlit("BYMONTH");
    reveal_strlit("BYSETPOS");
    reveal_strlit("WKST");
    assert(upper_seq("FREQ"@) =~= "FREQ"@);
    assert(upper_seq("INTERVAL"@) =~= "INTERVAL"@);
    assert(upper_seq("COUNT"@) =~= "COUNT"@);
    assert(upper_seq("BYMINUTE"@) =~= "BYMINUTE"@);
    assert(upper_seq("BYHOUR"@) =~= "BYHOUR"@);
    assert(upper_seq("BYDAY"@) =~= "BYDAY"@);
    assert(upper_seq("BYMONTHDAY"@) =~= "BYMONTHDAY"@);
    assert(upper_seq("BYYEARDAY"@) =~= "BYYEARDAY"@);
    assert(upper_seq("BYWEEKNO"@) =~= "BYWEEKNO"@);
    assert(upper_seq("BYMONTH"@) =~= "BYMONTH"@);
    assert(upper_seq("BYSETPOS"@) =~= "BYSETPOS"@);
    assert(upper_seq("WKST"@) =~= "WKST"@);
}

/// Every advanced part has a plain key and a value without `;`.
proof fn lemma_advanced_pairs_clean(rules: Seq<AdvancedRuleView>, k: int)
    requires
        0 <= k <= 9,
        forall|i: int| 0 <= i < rules.len() ==> free_of(#[trigger] rules[i].interval, ';'),
    ensures
        pairs_clean(advanced_pairs(rules, k)),
    decreases k,
{
    if k > 0 {
        lemma_advanced_pairs_clean(rules, k - 1);
        let vals = values_of_type(rules, k - 1);
        if vals.len() == 0 {
            assert(advanced_pairs(rules, k) == advanced_pairs(rules, k - 1));
        } else {
            lemma_plain_keys();
            assert(rule_name(k - 1) is Some);
            lemma_values_free(rules, k - 1, ';');
            lemma_join_free(vals, ',', ';');
            let rest = advanced_pairs(rules, k - 1);
            let p = (rule_name(k - 1)->0, join_with(vals, ','));
            assert(advanced_pairs(rules, k) == rest.push(p));
            assert forall|i: int| 0 <= i < rest.push(p).len() implies plain_key(
                #[trigger] rest.push(p)[i].0,
            ) && free_of(rest.push(p)[i].1, ';') by {
                if i < rest.len() {
                    assert(rest.push(p)[i] == rest[i]);
                }
            }
        }
    }
}

/// The values of one type hold no character that none of the rules hold.
proof fn lemma_values_free(rules: Seq<AdvancedRuleView>, t: int, c: char)
    requires
        forall|i: int| 0 <= i < rules.len() ==> free_of(#[trigger] rules[i].interval, c),
    ensures
        forall|j: int|
            0 <= j < values_of_type(rules, t).len() ==> free_of(
                #[trigger] values_of_type(rules, t)[j],
                c,
            ),
    decreases rules.len(),
{
    if rules.len() > 0 {
        let init = rules.drop_last();
        assert forall|i: int| 0 <= i < init.len() implies free_of(#[trigger] init[i].interval, c) by {
            assert(init[i] == rules[i]);
        }
        lemma_values_free(init, t, c);
        let rest = values_of_type(init, t);
        let last = rules.last();
        assert(free_of(rules[rules.len() - 1].interval, c));
        if last.rule_type == t {
            assert(values_of_type(rules, t) == rest.push(last.interval));
            assert forall|j: int| 0 <= j < rest.push(last.interval).len() implies free_of(
                #[trigger] rest.push(last.interval)[j],
                c,
            ) by {
                if j < rest.len() {
                    assert(rest.push(last.interval)[j] == rest[j]);
                }
            }
        } else {
            assert(values_of_type(rules, t) == rest);
        }
    }
}

/// Whether every part has a plain key and a value without `;`.
pub open spec fn pairs_clean(ps: Seq<(Seq<char>, Seq<char>)>) -> bool {
    forall|i: int| 0 <= i < ps.len() ==> plain_key(#[trigger] ps[i].0) && free_of(ps[i].1, ';')
}

proof fn lemma_clean_concat(a: Seq<(Seq<char>, Seq<char>)>, b: Seq<(Seq<char>, Seq<char>)>)
    requires
        pairs_clean(a),
        pairs_clean(b),
    ensures
        pairs_clean(a + b),
{
    assert forall|i: int| 0 <= i < (a + b).len() implies plain_key(#[trigger] (a + b)[i].0)
        && free_of((a + b)[i].1, ';') by {
        if i < a.len() {
            assert((a + b)[i] == a[i]);
            assert(plain_key(a[i].0) && free_of(a[i].1, ';'));
        } else {
            assert((a + b)[i] == b[i - a.len()]);
            assert(plain_key(b[i - a.len()].0) && free_of(b[i - a.len()].1, ';'));
        }
    }
}

proof fn lemma_head_clean(r: RepeatRuleView, ut: Seq<char>)
    requires
        0 <= r.frequency <= 3,
        r.end_type == 2 ==> free_of(ut, ';'),
    ensures
        head_pairs(r, ut).len() >= 2,
        pairs_clean(head_pairs(r, ut)),
{
    lemma_plain_keys();
    reveal_strlit("DAILY");
    reveal_strlit("WEEKLY");
    reveal_strlit("MONTHLY");
    reveal_strlit("YEARLY");
    let f = frequency_name(r.frequency as int)->0;
    assert(free_of(f, ';'));
    lemma_dec_free(written_interval(r), ';');
    lemma_dec_free(r.end_value->0 as int, ';');
    let h = head_pairs(r, ut);
    assert forall|i: int| 0 <= i < h.len() implies plain_key(#[trigger] h[i].0) && free_of(
        h[i].1,
        ';',
    ) by {
        if i == 0 {
            assert(h[0] == ("FREQ"@, f));
        } else if i == 1 {
            assert(h[1] == ("INTERVAL"@, dec_int(written_interval(r))));
        } else if r.end_type == 1 {
            assert(h[2] == ("COUNT"@, dec_int(r.end_value->0 as int)));
        } else {
            let u = ut;
            assert(h[2] == ("UNTIL"@, u));
            assert forall|k: int| 0 <= k < u.len() implies u[k] != ';' by {
                assert(u[k] != ';');
            }
        }
    }
}

/// Every part of a readable rule's text has a plain key and a value
/// without `;`.
proof fn lemma_text_pairs_clean(r: RepeatRuleView, ut: Seq<char>)
    requires
        rule_parsable(r, ut),
    ensures
        text_pairs(r, ut).len() >= 2,
        pairs_clean(text_pairs(r, ut)),
{
    assert forall|i: int| 0 <= i < r.advanced_rules.len() implies free_of(
        #[trigger] r.advanced_rules[i].interval,
        ';',
    ) by {}
    lemma_advanced_pairs_clean(r.advanced_rules, 9);
    lemma_head_clean(r, ut);
    lemma_clean_concat(head_pairs(r, ut), advanced_pairs(r.advanced_rules, 9));
}

/// Whether a rule's parts, with `ut` as its `UNTIL` value, split and
/// parse back: a known frequency; no end, a count it holds, or an `UNTIL`
/// value without `;`; advanced rules of known types whose values are not
/// empty and hold no `;` or `,`.
pub open spec fn rule_parsable(r: RepeatRuleView, ut: Seq<char>) -> bool {
    &&& 0 <= r.frequency <= 3
    &&& (r.end_type == 0 || (r.end_type == 1 && r.end_value is Some) || (r.end_type == 2
        && free_of(ut, ';')))
    &&& advanced_types_known(r.advanced_rules)
    &&& forall|i: int|
        0 <= i < r.advanced_rules.len() ==> {
            let v = #[trigger] r.advanced_rules[i].interval;
            v.len() > 0 && free_of(v, ';') && free_of(v, ',')
        }
}

/// A readable rule's parts, with the `UNTIL` text it is written with,
/// parse back.
proof fn lemma_readable_parsable(r: RepeatRuleView, all_day: bool)
    requires
        rule_readable(r, all_day),
    ensures
        rule_parsable(r, until_text(r, all_day)),
{
}

/// The parts of a parsable rule, joined by `;`, split into those parts,
/// which parse into its keys and values.
pub proof fn lemma_parts_parse(r: RepeatRuleView, ut: Seq<char>)
    requires
        rule_parsable(r, ut),
    ensures
        rrule_parts(join_with(text_parts(r, ut), ';')) == Some(text_pairs(r, ut)),
{
    lemma_text_pairs_parts(r, ut);
    lemma_text_pairs_clean(r, ut);
    let ps = text_pairs(r, ut);
    let parts = text_parts(r, ut);
    assert forall|i: int| 0 <= i < parts.len() implies free_of(#[trigger] parts[i], ';') by {
        assert(parts[i] == as_part(ps[i]));
        assert(free_of(seq!['='], ';'));
        lemma_free_concat(ps[i].0, seq!['='], ';');
        lemma_free_concat(ps[i].0 + seq!['='], ps[i].1, ';');
    }
    lemma_join_split(parts, ';');
    lemma_parse_as_parts(ps);
}

/// The text of a readable rule splits into its parts, which parse into its
/// keys and values.
pub proof fn lemma_text_parses(r: RepeatRuleView, all_day: bool)
    requires
        rule_readable(r, all_day),
    ensures
        rrule_text(r, all_day) matches Ok(text) && rrule_parts(text) == Some(
            text_pairs(r, until_text(r, all_day)),
        ),
{
    lemma_text_is_joined_parts(r, all_day);
    lemma_readable_parsable(r, all_day);
    lemma_parts_parse(r, until_text(r, all_day));
}

/// Each known advanced rule type has a name, which names that type alone.
proof fn lemma_rule_names()
    ensures
        forall|t: int| 0 <= t < 9 ==> #[trigger] rule_type(rule_name(t)->0) == Some(t as i64),
        forall|k: Seq<char>|
            #[trigger] rule_type(k) is Some ==> rule_name(rule_type(k)->0 as int) == Some(k),
        rule_type("FREQ"@) is None,
        rule_type("INTERVAL"@) is None,
        rule_type("COUNT"@) is None,
        rule_type("UNTIL"@) is None,
{
    reveal_strlit("FREQ");
    reveal_strlit("INTERVAL");
    reveal_strlit("COUNT");
    reveal_strlit("UNTIL");
    reveal_strlit("BYMINUTE");
    reveal_strlit("BYHOUR");
    reveal_strlit("BYDAY");
    reveal_strlit("BYMONTHDAY");
    reveal_strlit("BYYEARDAY");
    reveal_strlit("BYWEEKNO");
    reveal_strlit("BYMONTH");
    reveal_strlit("BYSETPOS");
    reveal_strlit("WKST");
    assert("BYMINUTE"@ != "BYWEEKNO"@ && "BYMINUTE"@ != "BYSETPOS"@ && "BYWEEKNO"@ != "BYSETPOS"@)
        by {
        assert("BYMINUTE"@[2] != "BYWEEKNO"@[2]);
        assert("BYMINUTE"@[2] != "BYSETPOS"@[2]);
        assert("BYWEEKNO"@[2] != "BYSETPOS"@[2]);
    }
    assert("INTERVAL"@ != "BYMINUTE"@ && "INTERVAL"@ != "BYWEEKNO"@ && "INTERVAL"@ != "BYSETPOS"@)
        by {
        assert("INTERVAL"@[0] != "BYMINUTE"@[0]);
    }
    assert("FREQ"@ != "WKST"@) by {
        assert("FREQ"@[0] != "WKST"@[0]);
    }
    assert("COUNT"@ != "BYDAY"@ && "UNTIL"@ != "BYDAY"@) by {
        assert("COUNT"@[0] != "BYDAY"@[0]);
        assert("UNTIL"@[0] != "BYDAY"@[0]);
    }
    assert("FREQ"@.len() == 4 && "WKST"@.len() == 4 && "BYDAY"@.len() == 5 && "COUNT"@.len() == 5
        && "UNTIL"@.len() == 5 && "BYHOUR"@.len() == 6 && "BYMONTH"@.len() == 7
        && "BYMINUTE"@.len() == 8 && "BYWEEKNO"@.len() == 8 && "BYSETPOS"@.len() == 8
        && "INTERVAL"@.len() == 8 && "BYYEARDAY"@.len() == 9 && "BYMONTHDAY"@.len() == 10);
    assert(rule_type(rule_name(0)->0) == Some(0i64));
    assert(rule_type(rule_name(1)->0) == Some(1i64));
    assert(rule_type(rule_name(2)->0) == Some(2i64));
    assert(rule_type(rule_name(3)->0) == Some(3i64));
    assert(rule_type(rule_name(4)->0) == Some(4i64));
    assert(rule_type(rule_name(5)->0) == Some(5i64));
    assert(rule_type(rule_name(6)->0) == Some(6i64));
    assert(rule_type(rule_name(7)->0) == Some(7i64));
    assert(rule_type(rule_name(8)->0) == Some(8i64));
    assert forall|t: int| 0 <= t < 9 implies #[trigger] rule_type(rule_name(t)->0) == Some(
        t as i64,
    ) by {
        if t == 0 {
        } else if t == 1 {
        } else if t == 2 {
        } else if t == 3 {
        } else if t == 4 {
        } else if t == 5 {
        } else if t == 6 {
        } else if t == 7 {
        } else {
        }
    }
}

/// Looking a key up among the head parts followed by the advanced parts:
/// the name of a type with values gives those values, joined; any other
/// key is looked up in the head.
proof fn lemma_lookup_advanced(
    base: Seq<(Seq<char>, Seq<char>)>,
    rules: Seq<AdvancedRuleView>,
    k: int,
    key: Seq<char>,
)
    requires
        0 <= k <= 9,
    ensures
        lookup(base + advanced_pairs(rules, k), key) == if rule_type(key) matches Some(t) && 0 <= t
            < k && values_of_type(rules, t as int).len() > 0 {
            Some(join_with(values_of_type(rules, rule_type(key)->0 as int), ','))
        } else {
            lookup(base, key)
        },
    decreases k,
{
    lemma_rule_names();
    if k == 0 {
        assert(base + advanced_pairs(rules, k) =~= base);
    } else {
        lemma_lookup_advanced(base, rules, k - 1, key);
        let prev = base + advanced_pairs(rules, k - 1);
        let vals = values_of_type(rules, k - 1);
        if vals.len() > 0 {
            let p = (rule_name(k - 1)->0, join_with(vals, ','));
            assert(base + advanced_pairs(rules, k) =~= prev.push(p));
            assert(prev.push(p).drop_last() =~= prev);
            assert(rule_type(rule_name(k - 1)->0) == Some((k - 1) as i64));
            if rule_type(key) is Some {
                assert(rule_name(rule_type(key)->0 as int) == Some(key));
            }
        } else {
            assert(base + advanced_pairs(rules, k) =~= prev);
        }
    }
}

/// The decimal of an `i64` reads back as that number.
proof fn lemma_parse_dec_int(v: i64)
    ensures
        parse_i64_spec(dec_int(v as int)) == Some(v),
{
    if v >= 0 {
        lemma_parse_dec(v as nat);
    } else {
        let m = (-(v as int)) as nat;
        lemma_dec_digits(m);
        let s = seq!['-'] + dec(m);
        assert(s.skip(1) =~= dec(m));
        assert(s[0] == '-');
    }
}

/// The end value that a rule's text reads back as: the count, the end as
/// `until_back` gives it, or none.
pub open spec fn end_read_back(r: RepeatRuleView, all_day: bool) -> Option<i64> {
    if r.end_type == 1 {
        r.end_value
    } else if r.end_type == 2 {
        Some(until_back(r, all_day) as i64)
    } else {
        None
    }
}

/// In the parts of a parsable rule, `FREQ` and `INTERVAL` read back as the
/// rule's, and `COUNT` and `UNTIL` are there exactly for its end type.
pub proof fn lemma_head_lookups(r: RepeatRuleView, ut: Seq<char>)
    requires
        rule_parsable(r, ut),
    ensures
        frequency_of(text_pairs(r, ut)) == Ok::<i64, MappingError>(r.frequency),
        interval_of(text_pairs(r, ut)) == Ok::<i64, MappingError>(written_interval(r) as i64),
        lookup(text_pairs(r, ut), "COUNT"@) == (if r.end_type == 1 {
            Some(dec_int(r.end_value->0 as int))
        } else {
            None
        }),
        lookup(text_pairs(r, ut), "UNTIL"@) == (if r.end_type == 2 {
            Some(ut)
        } else {
            None
        }),
{
    lemma_rule_names();
    let h = head_pairs(r, ut);
    let rules = r.advanced_rules;
    lemma_lookup_advanced(h, rules, 9, "FREQ"@);
    lemma_lookup_advanced(h, rules, 9, "INTERVAL"@);
    lemma_lookup_advanced(h, rules, 9, "COUNT"@);
    lemma_lookup_advanced(h, rules, 9, "UNTIL"@);
    reveal_strlit("FREQ");
    reveal_strlit("INTERVAL");
    reveal_strlit("COUNT");
    reveal_strlit("UNTIL");
    reveal_strlit("DAILY");
    reveal_strlit("WEEKLY");
    reveal_strlit("MONTHLY");
    reveal_strlit("YEARLY");
    assert("DAILY"@[0] == 'D' && "WEEKLY"@[0] == 'W' && "MONTHLY"@[0] == 'M' && "YEARLY"@[0]
        == 'Y');
    assert("FREQ"@[0] == 'F' && "INTERVAL"@[0] == 'I' && "COUNT"@[0] == 'C' && "UNTIL"@[0]
        == 'U');
    assert("DAILY"@ != "WEEKLY"@ && "DAILY"@ != "MONTHLY"@ && "DAILY"@ != "YEARLY"@
        && "WEEKLY"@ != "MONTHLY"@ && "WEEKLY"@ != "YEARLY"@ && "MONTHLY"@ != "YEARLY"@);
    assert("FREQ"@ != "INTERVAL"@ && "FREQ"@ != "COUNT"@ && "INTERVAL"@ != "COUNT"@);
    assert("UNTIL"@ != "COUNT"@ && "UNTIL"@ != "FREQ"@ && "UNTIL"@ != "INTERVAL"@);
    reveal_with_fuel(lookup, 4);
    let f = frequency_name(r.frequency as int)->0;
    let wi = written_interval(r);
    assert(lookup(h, "FREQ"@) == Some(f));
    assert(lookup(h, "INTERVAL"@) == Some(dec_int(wi)));
    lemma_parse_dec(wi as nat);
    assert(dec_int(wi) == dec(wi as nat));
    if r.end_type == 1 {
        assert(lookup(h, "UNTIL"@) is None);
        assert(lookup(h, "COUNT"@) == Some(dec_int(r.end_value->0 as int)));
    } else if r.end_type == 2 {
        assert(lookup(h, "COUNT"@) is None);
        assert(lookup(h, "UNTIL"@) == Some(ut));
    } else {
        assert(lookup(h, "UNTIL"@) is None);
        assert(lookup(h, "COUNT"@) is None);
    }
}

/// The `FREQ`, `INTERVAL` and end of a readable rule's text read back as
/// the rule's.
pub proof fn lemma_core_scalars(r: RepeatRuleView, tz: Seq<char>, all_day: bool)
    requires
        rule_readable(r, all_day),
    ensures
        frequency_of(text_pairs(r, until_text(r, all_day))) == Ok::<i64, MappingError>(r.frequency),
        interval_of(text_pairs(r, until_text(r, all_day))) == Ok::<i64, MappingError>(
            written_interval(r) as i64,
        ),
        end_of(text_pairs(r, until_text(r, all_day)), tz, all_day) == Ok::<
            (i64, Option<i64>),
            MappingError,
        >((r.end_type, end_read_back(r, all_day))),
{
    let u = until_text(r, all_day);
    lemma_readable_parsable(r, all_day);
    lemma_head_lookups(r, u);
    if r.end_type == 1 {
        lemma_parse_dec_int(r.end_value->0);
    } else if r.end_type == 2 {
        assert(crate::mapping::until_millis(u, tz, all_day) == Ok::<i64, MappingError>(
            until_back(r, all_day) as i64,
        ));
    }
}

/// The type of the advanced rule named at position `j` of the names in
/// the order of their bytes.
pub open spec fn type_at(j: int) -> int {
    if j == 0 {
        2
    } else if j == 1 {
        1
    } else if j == 2 {
        0
    } else if j == 3 {
        6
    } else if j == 4 {
        3
    } else if j == 5 {
        7
    } else if j == 6 {
        5
    } else if j == 7 {
        4
    } else {
        8
    }
}

/// The position of the name of type `t` in the order of the names' bytes.
pub open spec fn position_of(t: int) -> int {
    if t == 0 {
        2
    } else if t == 1 {
        1
    } else if t == 2 {
        0
    } else if t == 3 {
        4
    } else if t == 4 {
        7
    } else if t == 5 {
        6
    } else if t == 6 {
        3
    } else if t == 7 {
        5
    } else {
        8
    }
}

proof fn lemma_values_concat(a: Seq<AdvancedRuleView>, b: Seq<AdvancedRuleView>, t: int)
    ensures
        values_of_type(a + b, t) == values_of_type(a, t) + values_of_type(b, t),
    decreases b.len(),
{
    if b.len() == 0 {
        assert(a + b =~= a);
        assert(values_of_type(b, t) =~= Seq::<Seq<char>>::empty());
        assert(values_of_type(a, t) + values_of_type(b, t) =~= values_of_type(a, t));
    } else {
        lemma_values_concat(a, b.drop_last(), t);
        assert((a + b).drop_last() =~= a + b.drop_last());
        assert((a + b).last() == b.last());
        if b.last().rule_type == t {
            assert(values_of_type(a, t) + values_of_type(b.drop_last(), t).push(b.last().interval)
                =~= (values_of_type(a, t) + values_of_type(b.drop_last(), t)).push(
                b.last().interval,
            ));
        }
    }
}

/// Non-empty pieces become one rule of the type each, in order.
proof fn lemma_rules_from_pieces(pieces: Seq<Seq<char>>, t: i64)
    requires
        forall|i: int| 0 <= i < pieces.len() ==> (#[trigger] pieces[i]).len() > 0,
    ensures
        forall|u: int|
            #[trigger] values_of_type(rules_from_pieces(pieces, t), u) == if u == t {
                pieces
            } else {
                seq![]
            },
        forall|i: int|
            0 <= i < rules_from_pieces(pieces, t).len() ==> (#[trigger] rules_from_pieces(
                pieces,
                t,
            )[i]).rule_type == t,
    decreases pieces.len(),
{
    if pieces.len() == 0 {
        assert forall|u: int| #[trigger]
            values_of_type(rules_from_pieces(pieces, t), u) == if u == t {
                pieces
            } else {
                seq![]
            } by {
            assert(pieces =~= Seq::<Seq<char>>::empty());
        }
    } else {
        let init = pieces.drop_last();
        assert forall|i: int| 0 <= i < init.len() implies (#[trigger] init[i]).len() > 0 by {
            assert(init[i] == pieces[i]);
        }
        lemma_rules_from_pieces(init, t);
        let rest = rules_from_pieces(init, t);
        assert(pieces.last().len() > 0);
        let rule = AdvancedRuleView { rule_type: t, interval: pieces.last() };
        assert(rules_from_pieces(pieces, t) == rest.push(rule));
        assert forall|u: int| #[trigger]
            values_of_type(rules_from_pieces(pieces, t), u) == if u == t {
                pieces
            } else {
                seq![]
            } by {
            assert(rest.push(rule).drop_last() =~= rest);
            assert(rest.push(rule).last() == rule);
            assert(values_of_type(rest, u) == if u == t {
                init
            } else {
                seq![]
            });
            if u == t {
                assert(values_of_type(rest.push(rule), u) == values_of_type(rest, u).push(
                    pieces.last(),
                ));
                assert(init.push(pieces.last()) =~= pieces);
            } else {
                assert(values_of_type(rest.push(rule), u) == values_of_type(rest, u));
            }
        }
        assert forall|i: int| 0 <= i < rest.push(rule).len() implies (#[trigger] rest.push(
            rule,
        )[i]).rule_type == t by {
            if i < rest.len() {
                assert(rest.push(rule)[i] == rest[i]);
            }
        }
    }
}

/// The rules that the text gives for the name at position `j`.
pub open spec fn block_of(r: RepeatRuleView, ut: Seq<char>, j: int) -> Seq<AdvancedRuleView> {
    let name = sorted_rule_name(j);
    match lookup(text_pairs(r, ut), name) {
        Some(v) => rules_from_pieces(split_on(v, ','), rule_type(name)->0),
        None => seq![],
    }
}

/// What the text gives for the name at position `j`: the rules of that
/// type, read back.
proof fn lemma_block(r: RepeatRuleView, ut: Seq<char>, j: int)
    requires
        rule_parsable(r, ut),
        0 <= j < 9,
    ensures
        rule_type(sorted_rule_name(j)) == Some(type_at(j) as i64),
        forall|u: int|
            #[trigger] values_of_type(block_of(r, ut, j), u) == if u == type_at(j) {
                values_of_type(r.advanced_rules, u)
            } else {
                seq![]
            },
        forall|i: int|
            0 <= i < block_of(r, ut, j).len() ==> (#[trigger] block_of(r, ut, j)[i]).rule_type == type_at(j),
{
    lemma_rule_names();
    reveal_strlit("FREQ");
    reveal_strlit("INTERVAL");
    reveal_strlit("COUNT");
    reveal_strlit("BYMINUTE");
    reveal_strlit("BYHOUR");
    reveal_strlit("BYDAY");
    reveal_strlit("BYMONTHDAY");
    reveal_strlit("BYYEARDAY");
    reveal_strlit("BYWEEKNO");
    reveal_strlit("BYMONTH");
    reveal_strlit("BYSETPOS");
    reveal_strlit("WKST");
    let t = type_at(j);
    let name = sorted_rule_name(j);
    assert(name == rule_name(t)->0);
    assert(rule_type(name) == Some(t as i64));
    let ps = text_pairs(r, ut);
    let h = head_pairs(r, ut);
    let rules = r.advanced_rules;
    lemma_lookup_advanced(h, rules, 9, name);
    assert(name[0] == 'B' || name[0] == 'W');
    assert("FREQ"@[0] == 'F' && "INTERVAL"@[0] == 'I' && "COUNT"@[0] == 'C');
    assert(name != "FREQ"@ && name != "INTERVAL"@ && name != "COUNT"@);
    reveal_with_fuel(lookup, 4);
    assert(lookup(h, name) is None);
    let vals = values_of_type(rules, t);
    if vals.len() > 0 {
        assert(lookup(ps, name) == Some(join_with(vals, ',')));
        lemma_values_free(rules, t, ',');
        assert forall|i: int| 0 <= i < vals.len() implies (#[trigger] vals[i]).len() > 0 by {
            lemma_values_nonempty(rules, t);
        }
        lemma_join_split(vals, ',');
        lemma_rules_from_pieces(vals, t as i64);
    } else {
        assert(lookup(ps, name) is None);
        assert forall|u: int| #[trigger]
            values_of_type(Seq::<AdvancedRuleView>::empty(), u) == if u == t {
                values_of_type(rules, u)
            } else {
                seq![]
            } by {
            if u == t {
                assert(vals =~= Seq::<Seq<char>>::empty());
            }
        }
    }
}

/// The values of each type are among the rules' values, none empty.
proof fn lemma_values_nonempty(rules: Seq<AdvancedRuleView>, t: int)
    requires
        forall|i: int| 0 <= i < rules.len() ==> (#[trigger] rules[i].interval).len() > 0,
    ensures
        forall|j: int|
            0 <= j < values_of_type(rules, t).len() ==> (#[trigger] values_of_type(rules, t)[j]).len()
                > 0,
    decreases rules.len(),
{
    if rules.len() > 0 {
        let init = rules.drop_last();
        assert forall|i: int| 0 <= i < init.len() implies (#[trigger] init[i].interval).len() > 0 by {
            assert(init[i] == rules[i]);
        }
        lemma_values_nonempty(init, t);
        let rest = values_of_type(init, t);
        assert(rules.last().interval.len() > 0);
        if rules.last().rule_type == t {
            assert forall|j: int| 0 <= j < rest.push(rules.last().interval).len() implies (
            #[trigger] rest.push(rules.last().interval)[j]).len() > 0 by {
                if j < rest.len() {
                    assert(rest.push(rules.last().interval)[j] == rest[j]);
                }
            }
        }
    }
}

/// Reading the advanced parts back gives, for each type, the values of
/// that type in their order, once its name's position has been reached.
proof fn lemma_advanced_of_values(r: RepeatRuleView, ut: Seq<char>, k: int)
    requires
        rule_parsable(r, ut),
        0 <= k <= 9,
    ensures
        forall|t: int|
            0 <= t < 9 ==> #[trigger] values_of_type(advanced_of(text_pairs(r, ut), k), t) == if position_of(t)
                < k {
                values_of_type(r.advanced_rules, t)
            } else {
                seq![]
            },
        forall|i: int|
            0 <= i < advanced_of(text_pairs(r, ut), k).len() ==> 0 <= (#[trigger] advanced_of(
                text_pairs(r, ut),
                k,
            )[i]).rule_type <= 8,
    decreases k,
{
    let ps = text_pairs(r, ut);
    if k == 0 {
        assert forall|t: int| 0 <= t < 9 implies #[trigger] values_of_type(advanced_of(ps, k), t)
            == if position_of(t) < k {
            values_of_type(r.advanced_rules, t)
        } else {
            seq![]
        } by {
            assert(advanced_of(ps, k) =~= Seq::<AdvancedRuleView>::empty());
        }
    } else {
        lemma_advanced_of_values(r, ut, k - 1);
        lemma_block(r, ut, k - 1);
        let prev = advanced_of(ps, k - 1);
        let block = block_of(r, ut, k - 1);
        assert(advanced_of(ps, k) == prev + block);
        assert forall|t: int| 0 <= t < 9 implies #[trigger] values_of_type(advanced_of(ps, k), t)
            == if position_of(t) < k {
            values_of_type(r.advanced_rules, t)
        } else {
            seq![]
        } by {
            lemma_values_concat(prev, block, t);
            assert(values_of_type(block, t) == if t == type_at(k - 1) {
                values_of_type(r.advanced_rules, t)
            } else {
                seq![]
            });
            assert((t == type_at(k - 1)) == (position_of(t) == k - 1));
            assert(values_of_type(prev, t) == if position_of(t) < k - 1 {
                values_of_type(r.advanced_rules, t)
            } else {
                seq![]
            });
            assert(values_of_type(prev, t) + seq![] =~= values_of_type(prev, t));
            assert(seq![] + values_of_type(block, t) =~= values_of_type(block, t));
        }
        assert forall|i: int| 0 <= i < (prev + block).len() implies 0 <= (#[trigger] (prev
            + block)[i]).rule_type <= 8 by {
            if i < prev.len() {
                assert((prev + block)[i] == prev[i]);
            } else {
                assert((prev + block)[i] == block[i - prev.len()]);
                assert(block[i - prev.len()].rule_type == type_at(k - 1));
            }
        }
    }
}

/// Rules with the same values of each type are written the same.
proof fn lemma_upto_same(a: Seq<AdvancedRuleView>, b: Seq<AdvancedRuleView>, k: int)
    requires
        0 <= k <= 9,
        forall|t: int| 0 <= t < 9 ==> #[trigger] values_of_type(a, t) == values_of_type(b, t),
    ensures
        advanced_upto(a, k) == advanced_upto(b, k),
    decreases k,
{
    if k > 0 {
        lemma_upto_same(a, b, k - 1);
        assert(values_of_type(a, k - 1) == values_of_type(b, k - 1));
    }
}

/// The rule that an RRULE text reads back as, given what `rule_core`
/// gives for it.
pub open spec fn rule_read_back(
    r: RepeatRuleView,
    core: (i64, i64, i64, Option<i64>, Seq<AdvancedRuleView>),
) -> RepeatRuleView {
    RepeatRuleView {
        frequency: core.0,
        interval: core.1,
        end_type: core.2,
        end_value: core.3,
        advanced_rules: core.4,
        ..r
    }
}

/// The RRULE that a readable Tuta rule is written as reads back with the
/// rule's frequency, its interval (at least one), its end (an `UNTIL` end
/// down to the start of its day or second), and the values of each
/// advanced type in their order; written again, that rule gives the same
/// text.
pub proof fn lemma_rrule_round_trip(r: RepeatRuleView, tz: Seq<char>, all_day: bool)
    requires
        rule_readable(r, all_day),
    ensures
        rrule_text(r, all_day) matches Ok(text) && rule_core(text, tz, all_day) matches Ok(core)
            && core.0 == r.frequency && core.1 == written_interval(r) && core.2 == r.end_type
            && core.3 == end_read_back(r, all_day) && (forall|t: int|
            0 <= t < 9 ==> #[trigger] values_of_type(core.4, t) == values_of_type(
                r.advanced_rules,
                t,
            )) && rrule_text(rule_read_back(r, core), all_day) == Ok::<Seq<char>, MappingError>(
            text,
        ),
{
    lemma_text_parses(r, all_day);
    lemma_core_scalars(r, tz, all_day);
    lemma_readable_parsable(r, all_day);
    lemma_advanced_of_values(r, until_text(r, all_day), 9);
    let text = rrule_text(r, all_day)->Ok_0;
    let ps = text_pairs(r, until_text(r, all_day));
    let adv = advanced_of(ps, 9);
    let core = (r.frequency, written_interval(r) as i64, r.end_type, end_read_back(r, all_day), adv);
    assert(rule_core(text, tz, all_day) == Ok::<
        (i64, i64, i64, Option<i64>, Seq<AdvancedRuleView>),
        MappingError,
    >(core));
    assert forall|t: int| 0 <= t < 9 implies #[trigger] values_of_type(adv, t) == values_of_type(
        r.advanced_rules,
        t,
    ) by {
        assert(position_of(t) < 9);
    }
    lemma_upto_same(adv, r.advanced_rules, 9);
    let back = rule_read_back(r, core);
    assert(advanced_types_known(adv));
    assert(written_interval(back) == written_interval(r));
    if r.end_type == 2 {
        lemma_until_back_in_range(r, all_day);
    }
    assert(end_text(back, all_day) == end_text(r, all_day));
}

/// The start of the day or second of an instant in chrono's range is in
/// that range too: the range starts at the start of a day.
proof fn lemma_until_back_in_range(r: RepeatRuleView, all_day: bool)
    requires
        r.end_value is Some,
        in_range(r.end_value->0 as int),
    ensures
        in_range(until_back(r, all_day)),
{
    let v = r.end_value->0 as int;
    let step = until_step(all_day);
    vstd::arithmetic::div_mod::lemma_fundamental_div_mod(v, step);
    vstd::arithmetic::div_mod::lemma_div_is_ordered(MIN_MS as int, v, step);
    assert((MIN_MS as int / DAY_MS as int) * DAY_MS as int == MIN_MS as int);
    assert((MIN_MS as int / 1000) * 1000 == MIN_MS as int);
    assert(MIN_MS as int / step * step <= (v / step) * step) by (nonlinear_arith)
        requires
            MIN_MS as int / step <= v / step,
            step > 0,
    ;
}

/// A caldir event whose RRULE is one that the provider writes for some
/// Tuta rule is written to Tuta and read back with the same RRULE. Where
/// the rule ends by `UNTIL`, whose text depends on it, the rule's all-day
/// flag must be the event's, both as caldir sees it (a date start) and as
/// Tuta sees it (whole UTC days).
pub proof fn lemma_caldir_rrule_round_trip(
    ev: EventView,
    te: TutaEventView,
    back: EventView,
    written_from: RepeatRuleView,
    written_all_day: bool,
)
    requires
        tuta_event_matches(ev, te),
        caldir_event_outcome(te, Ok(back)),
        rule_readable(written_from, written_all_day),
        written_from.end_type == 2 ==> written_all_day == ev.start is Date && all_day_spec(te)
            == written_all_day,
        ev.recurrence matches Some(rec) && rrule_text(written_from, written_all_day) == Ok::<
            Seq<char>,
            MappingError,
        >(rec.rrule),
    ensures
        back.recurrence matches Some(brec) && brec.rrule == ev.recurrence->0.rrule,
{
    let rec = ev.recurrence->0;
    let zone = start_rule_zone(ev);
    let all_day = ev.start is Date;
    assert(end_text(written_from, all_day) == end_text(written_from, written_all_day));
    assert(rrule_text(written_from, all_day) == rrule_text(written_from, written_all_day));
    assert(rule_readable(written_from, all_day));
    lemma_rrule_round_trip(written_from, zone, ev.start is Date);
    let core = rule_core(rec.rrule, zone, ev.start is Date)->Ok_0;
    let rule = te.repeat_rule->0;
    let back_rule = rule_read_back(written_from, core);
    assert(rule.frequency == back_rule.frequency && rule.interval == back_rule.interval
        && rule.end_type == back_rule.end_type && rule.end_value == back_rule.end_value
        && rule.advanced_rules == back_rule.advanced_rules);
    assert(end_text(back_rule, all_day) == end_text(back_rule, written_all_day));
    assert(rrule_text(rule, all_day_spec(te)) == rrule_text(back_rule, written_all_day));
}


// ------------------------------------------------------------ the RRULE shape
/// Whether a value can stand in an advanced part: not empty, without `;`
/// or `,`.
pub open spec fn plain_value(v: Seq<char>) -> bool {
    v.len() > 0 && free_of(v, ';') && free_of(v, ',')
}

/// The advanced rules of one type, one per value, in order.
pub open spec fn block_rules(t: int, vals: Seq<Seq<char>>) -> Seq<AdvancedRuleView>
    decreases vals.len(),
{
    if vals.len() == 0 {
        seq![]
    } else {
        block_rules(t, vals.drop_last()).push(
            AdvancedRuleView { rule_type: t as i64, interval: vals.last() },
        )
    }
}

/// The advanced rules of the blocks, block after block.
pub open spec fn blocks_rules(blocks: Seq<(int, Seq<Seq<char>>)>) -> Seq<AdvancedRuleView>
    decreases blocks.len(),
{
    if blocks.len() == 0 {
        seq![]
    } else {
        blocks_rules(blocks.drop_last()) + block_rules(blocks.last().0, blocks.last().1)
    }
}

/// The values that the blocks give the type `t`.
pub open spec fn block_values(blocks: Seq<(int, Seq<Seq<char>>)>, t: int) -> Seq<Seq<char>>
    decreases blocks.len(),
{
    if blocks.len() == 0 {
        seq![]
    } else {
        block_values(blocks.drop_last(), t) + if blocks.last().0 == t {
            blocks.last().1
        } else {
            seq![]
        }
    }
}

/// `;NAME=v1,v2` for a block of values of one type.
pub open spec fn block_text(b: (int, Seq<Seq<char>>)) -> Seq<char> {
    seq![';'] + rule_name(b.0)->0 + seq!['='] + join_with(b.1, ',')
}

/// The parts of the blocks, in order.
pub open spec fn blocks_text(blocks: Seq<(int, Seq<Seq<char>>)>) -> Seq<char>
    decreases blocks.len(),
{
    if blocks.len() == 0 {
        seq![]
    } else {
        blocks_text(blocks.drop_last()) + block_text(blocks.last())
    }
}

/// Whether the blocks name known types in increasing type order, each with
/// at least one value, each value plain.
pub open spec fn blocks_ordered(blocks: Seq<(int, Seq<Seq<char>>)>) -> bool {
    &&& forall|i: int|
        0 <= i < blocks.len() ==> 0 <= #[trigger] blocks[i].0 < 9 && blocks[i].1.len() > 0 && (
        forall|j: int| 0 <= j < blocks[i].1.len() ==> plain_value(#[trigger] blocks[i].1[j]))
    &&& forall|i: int, j: int|
        0 <= i < j < blocks.len() ==> #[trigger] blocks[i].0 < #[trigger] blocks[j].0
}

proof fn lemma_block_values(t: int, vals: Seq<Seq<char>>, x: int)
    requires
        0 <= t < 9,
    ensures
        values_of_type(block_rules(t, vals), x) == if x == t {
            vals
        } else {
            seq![]
        },
    decreases vals.len(),
{
    if vals.len() > 0 {
        lemma_block_values(t, vals.drop_last(), x);
        let r = block_rules(t, vals);
        assert(r.drop_last() =~= block_rules(t, vals.drop_last()));
        if x == t {
            assert(vals.drop_last().push(vals.last()) =~= vals);
        }
    }
}

proof fn lemma_blocks_values(blocks: Seq<(int, Seq<Seq<char>>)>, x: int)
    requires
        forall|i: int| 0 <= i < blocks.len() ==> 0 <= #[trigger] blocks[i].0 < 9,
    ensures
        values_of_type(blocks_rules(blocks), x) == block_values(blocks, x),
    decreases blocks.len(),
{
    if blocks.len() > 0 {
        let init = blocks.drop_last();
        assert forall|i: int| 0 <= i < init.len() implies 0 <= #[trigger] init[i].0 < 9 by {
            assert(init[i] == blocks[i]);
        }
        lemma_blocks_values(init, x);
        let b = blocks.last();
        assert(0 <= blocks[blocks.len() - 1].0 < 9);
        lemma_block_values(b.0, b.1, x);
        lemma_values_concat(blocks_rules(init), block_rules(b.0, b.1), x);
    }
}

proof fn lemma_block_values_above(blocks: Seq<(int, Seq<Seq<char>>)>, top: int, x: int)
    requires
        forall|i: int| 0 <= i < blocks.len() ==> #[trigger] blocks[i].0 < top,
        x >= top,
    ensures
        block_values(blocks, x) == Seq::<Seq<char>>::empty(),
    decreases blocks.len(),
{
    if blocks.len() > 0 {
        let init = blocks.drop_last();
        assert forall|i: int| 0 <= i < init.len() implies #[trigger] init[i].0 < top by {
            assert(init[i] == blocks[i]);
        }
        lemma_block_values_above(init, top, x);
        assert(blocks[blocks.len() - 1].0 < top);
        assert(block_values(init, x) + seq![] =~= Seq::<Seq<char>>::empty());
    }
}

proof fn lemma_upto_below(a: Seq<AdvancedRuleView>, b: Seq<AdvancedRuleView>, k: int)
    requires
        0 <= k,
        forall|t: int| 0 <= t < k ==> #[trigger] values_of_type(a, t) == values_of_type(b, t),
    ensures
        advanced_upto(a, k) == advanced_upto(b, k),
    decreases k,
{
    if k > 0 {
        lemma_upto_below(a, b, k - 1);
        assert(values_of_type(a, k - 1) == values_of_type(b, k - 1));
    }
}

proof fn lemma_upto_stable(rules: Seq<AdvancedRuleView>, a: int, k: int)
    requires
        0 <= a <= k,
        forall|t: int| a <= t < k ==> (#[trigger] values_of_type(rules, t)).len() == 0,
    ensures
        advanced_upto(rules, k) == advanced_upto(rules, a),
    decreases k - a,
{
    if k > a {
        lemma_upto_stable(rules, a, k - 1);
        assert(values_of_type(rules, k - 1).len() == 0);
        assert(advanced_upto(rules, k) =~= advanced_upto(rules, k - 1));
    }
}

/// The advanced text of ordered blocks' rules is the blocks' parts, in
/// order.
proof fn lemma_blocks_upto(blocks: Seq<(int, Seq<Seq<char>>)>)
    requires
        blocks_ordered(blocks),
    ensures
        advanced_upto(blocks_rules(blocks), 9) == blocks_text(blocks),
    decreases blocks.len(),
{
    if blocks.len() == 0 {
        lemma_upto_stable(blocks_rules(blocks), 0, 9);
    } else {
        let init = blocks.drop_last();
        let n = blocks.len() - 1;
        let b = blocks[n];
        assert(b == blocks.last());
        assert(blocks_ordered(init)) by {
            assert forall|i: int| 0 <= i < init.len() implies 0 <= #[trigger] init[i].0 < 9
                && init[i].1.len() > 0 && (forall|j: int|
                0 <= j < init[i].1.len() ==> plain_value(#[trigger] init[i].1[j])) by {
                assert(init[i] == blocks[i]);
            }
            assert forall|i: int, j: int| 0 <= i < j < init.len() implies #[trigger] init[i].0
                < #[trigger] init[j].0 by {
                assert(init[i] == blocks[i] && init[j] == blocks[j]);
            }
        }
        lemma_blocks_upto(init);
        let top = b.0;
        assert(0 <= top < 9 && b.1.len() > 0);
        assert forall|i: int| 0 <= i < init.len() implies #[trigger] init[i].0 < top by {
            assert(init[i] == blocks[i]);
            assert(blocks[i].0 < blocks[n].0);
        }
        assert forall|i: int| 0 <= i < blocks.len() implies 0 <= #[trigger] blocks[i].0 < 9 by {}
        assert forall|i: int| 0 <= i < init.len() implies 0 <= #[trigger] init[i].0 < 9 by {
            assert(init[i] == blocks[i]);
        }
        let r = blocks_rules(init);
        let r2 = blocks_rules(blocks);
        assert forall|t: int| 0 <= t < top implies #[trigger] values_of_type(r2, t)
            == values_of_type(r, t) by {
            lemma_blocks_values(blocks, t);
            lemma_blocks_values(init, t);
            assert(block_values(init, t) + seq![] =~= block_values(init, t));
        }
        lemma_upto_below(r2, r, top);
        lemma_blocks_values(blocks, top);
        lemma_block_values_above(init, top, top);
        assert(values_of_type(r2, top) =~= b.1);
        assert(advanced_piece(r2, top) == block_text(b));
        assert(advanced_upto(r2, top + 1) == advanced_upto(r2, top) + advanced_piece(r2, top));
        assert forall|t: int| top + 1 <= t < 9 implies (#[trigger] values_of_type(r2, t)).len()
            == 0 by {
            lemma_blocks_values(blocks, t);
            lemma_block_values_above(init, top, t);
        }
        lemma_upto_stable(r2, top + 1, 9);
        assert forall|t: int| top <= t < 9 implies (#[trigger] values_of_type(r, t)).len() == 0 by {
            lemma_blocks_values(init, t);
            lemma_block_values_above(init, top, t);
        }
        lemma_upto_stable(r, top, 9);
    }
}

/// The rules of ordered blocks have known types and plain values.
proof fn lemma_blocks_rules_plain(blocks: Seq<(int, Seq<Seq<char>>)>)
    requires
        blocks_ordered(blocks),
    ensures
        forall|i: int|
            0 <= i < blocks_rules(blocks).len() ==> 0 <= (#[trigger] blocks_rules(blocks)[i]).rule_type
                <= 8 && plain_value(blocks_rules(blocks)[i].interval),
    decreases blocks.len(),
{
    if blocks.len() > 0 {
        let init = blocks.drop_last();
        assert(blocks_ordered(init)) by {
            assert forall|i: int| 0 <= i < init.len() implies 0 <= #[trigger] init[i].0 < 9
                && init[i].1.len() > 0 && (forall|j: int|
                0 <= j < init[i].1.len() ==> plain_value(#[trigger] init[i].1[j])) by {
                assert(init[i] == blocks[i]);
            }
            assert forall|i: int, j: int| 0 <= i < j < init.len() implies #[trigger] init[i].0
                < #[trigger] init[j].0 by {
                assert(init[i] == blocks[i] && init[j] == blocks[j]);
            }
        }
        lemma_blocks_rules_plain(init);
        let b = blocks[blocks.len() - 1];
        assert(b == blocks.last());
        lemma_block_rules_plain(b.0, b.1);
        let a = blocks_rules(init);
        let c = block_rules(b.0, b.1);
        assert forall|i: int| 0 <= i < (a + c).len() implies 0 <= (#[trigger] (a + c)[i]).rule_type
            <= 8 && plain_value((a + c)[i].interval) by {
            if i < a.len() {
                assert((a + c)[i] == a[i]);
            } else {
                assert((a + c)[i] == c[i - a.len()]);
            }
        }
    }
}

proof fn lemma_block_rules_plain(t: int, vals: Seq<Seq<char>>)
    requires
        0 <= t < 9,
        forall|j: int| 0 <= j < vals.len() ==> plain_value(#[trigger] vals[j]),
    ensures
        forall|i: int|
            0 <= i < block_rules(t, vals).len() ==> (#[trigger] block_rules(t, vals)[i]).rule_type
                == t && block_rules(t, vals)[i].interval == vals[i],
        block_rules(t, vals).len() == vals.len(),
    decreases vals.len(),
{
    if vals.len() > 0 {
        let init = vals.drop_last();
        assert forall|j: int| 0 <= j < init.len() implies plain_value(#[trigger] init[j]) by {
            assert(init[j] == vals[j]);
        }
        lemma_block_rules_plain(t, init);
    }
}

/// The end part of an RRULE text of the provider's shape.
pub open spec fn shape_end(end_type: int, count: int, until: Seq<char>) -> Seq<char> {
    if end_type == 1 {
        ";COUNT="@ + dec_int(count)
    } else if end_type == 2 {
        ";UNTIL="@ + until
    } else {
        seq![]
    }
}

/// An RRULE text of the provider's shape: `FREQ`, `INTERVAL`, an optional
/// `COUNT` or `UNTIL`, then the advanced parts.
pub open spec fn shape_text(
    frequency: int,
    interval: int,
    end_type: int,
    count: int,
    until: Seq<char>,
    blocks: Seq<(int, Seq<Seq<char>>)>,
) -> Seq<char> {
    "FREQ="@ + frequency_name(frequency)->0 + ";INTERVAL="@ + dec_int(interval) + shape_end(
        end_type,
        count,
        until,
    ) + blocks_text(blocks)
}

/// Whether the pieces of such a text are of the provider's shape: `DAILY`,
/// `WEEKLY`, `MONTHLY` or `YEARLY`; an interval of at least one and a
/// count, both in decimal without leading zeros; an `UNTIL` of eight digits
/// for all-day events and `YYYYMMDDTHHMMSSZ` otherwise; and advanced parts
/// named in upper case in the order of their Tuta types, each with plain
/// values separated by `,`.
pub open spec fn shape_ok(
    frequency: int,
    interval: int,
    end_type: int,
    count: int,
    until: Seq<char>,
    blocks: Seq<(int, Seq<Seq<char>>)>,
    all_day: bool,
) -> bool {
    &&& 0 <= frequency <= 3
    &&& 1 <= interval <= i64::MAX
    &&& 0 <= end_type <= 2
    &&& (end_type == 1 ==> 0 <= count <= i64::MAX)
    &&& (end_type == 2 ==> until_shaped(until, all_day))
    &&& blocks_ordered(blocks)
}

/// Whether an RRULE text has the shape that the provider writes.
pub open spec fn rrule_shaped(text: Seq<char>, all_day: bool) -> bool {
    exists|
        frequency: int,
        interval: int,
        end_type: int,
        count: int,
        until: Seq<char>,
        blocks: Seq<(int, Seq<Seq<char>>)>,
    |
        #[trigger] shape_text(frequency, interval, end_type, count, until, blocks) == text
            && shape_ok(frequency, interval, end_type, count, until, blocks, all_day)
}

/// The `UNTIL` value of an RRULE text.
pub open spec fn rrule_until(text: Seq<char>) -> Seq<char> {
    lookup(rrule_parts(text)->0, "UNTIL"@)->0
}

/// The Tuta rule that such a text is written from, ending at `end` for an
/// `UNTIL`, with the other fields of `base`.
pub open spec fn shape_rule(
    base: RepeatRuleView,
    frequency: int,
    interval: int,
    end_type: int,
    count: int,
    end: int,
    blocks: Seq<(int, Seq<Seq<char>>)>,
) -> RepeatRuleView {
    RepeatRuleView {
        frequency: frequency as i64,
        interval: interval as i64,
        end_type: end_type as i64,
        end_value: if end_type == 1 {
            Some(count as i64)
        } else if end_type == 2 {
            Some(end as i64)
        } else {
            None
        },
        advanced_rules: blocks_rules(blocks),
        ..base
    }
}

/// An `UNTIL` value of the provider's shape holds no `;`.
proof fn lemma_until_shaped_free(u: Seq<char>, all_day: bool)
    requires
        until_shaped(u, all_day),
    ensures
        free_of(u, ';'),
{
    assert forall|i: int| 0 <= i < u.len() implies u[i] != ';' by {
        if !all_day {
            assert(i == 8 || i == 15 || is_digit(u[i]));
        } else {
            assert(is_digit(u[i]));
        }
    }
}

/// The rule that a text of the provider's shape is written from parses,
/// and its parts, joined, are the text.
proof fn lemma_shape_parts(
    base: RepeatRuleView,
    frequency: int,
    interval: int,
    end_type: int,
    count: int,
    until: Seq<char>,
    end: int,
    blocks: Seq<(int, Seq<Seq<char>>)>,
    all_day: bool,
)
    requires
        shape_ok(frequency, interval, end_type, count, until, blocks, all_day),
        end_type == 2 ==> i64::MIN <= end <= i64::MAX,
    ensures
        rule_parsable(shape_rule(base, frequency, interval, end_type, count, end, blocks), until),
        join_with(
            text_parts(shape_rule(base, frequency, interval, end_type, count, end, blocks), until),
            ';',
        ) == shape_text(frequency, interval, end_type, count, until, blocks),
{
    let w = shape_rule(base, frequency, interval, end_type, count, end, blocks);
    lemma_blocks_rules_plain(blocks);
    lemma_blocks_upto(blocks);
    if end_type == 2 {
        lemma_until_shaped_free(until, all_day);
    }
    assert forall|i: int| 0 <= i < w.advanced_rules.len() implies {
        let v = #[trigger] w.advanced_rules[i].interval;
        v.len() > 0 && free_of(v, ';') && free_of(v, ',')
    } by {
        assert(plain_value(blocks_rules(blocks)[i].interval));
    }
    assert(rule_parsable(w, until));
    lemma_joined_text(w, until);
    assert(written_interval(w) == interval);
    assert(end_part(w, until) == shape_end(end_type, count, until));
}

/// An RRULE text of the provider's shape, read into a Tuta rule (whose
/// `UNTIL` end chrono writes back as the text's `UNTIL` value, as parsing
/// it shows), is written as the same text.
pub proof fn lemma_shaped_rrule_round_trip(
    text: Seq<char>,
    tz: Seq<char>,
    all_day: bool,
    rule: RepeatRuleView,
    frequency: int,
    interval: int,
    end_type: int,
    count: int,
    until: Seq<char>,
    blocks: Seq<(int, Seq<Seq<char>>)>,
)
    requires
        shape_ok(frequency, interval, end_type, count, until, blocks, all_day),
        text == shape_text(frequency, interval, end_type, count, until, blocks),
        rule_core(text, tz, all_day) matches Ok(core) && rule.frequency == core.0 && rule.interval
            == core.1 && rule.end_type == core.2 && rule.end_value == core.3
            && rule.advanced_rules == core.4,
        rule.end_type == 2 ==> (until_shaped(rrule_until(text), all_day) ==> until_echoes(
            rrule_until(text),
            all_day,
            rule.end_value->0 as int,
        )),
    ensures
        rrule_text(rule, all_day) == Ok::<Seq<char>, MappingError>(text),
{
    let core = rule_core(text, tz, all_day)->Ok_0;
    let e: int = if end_type == 2 {
        rule.end_value->0 as int
    } else {
        0
    };
    let w = shape_rule(rule, frequency, interval, end_type, count, e, blocks);
    lemma_shape_parts(rule, frequency, interval, end_type, count, until, e, blocks, all_day);
    lemma_parts_parse(w, until);
    lemma_head_lookups(w, until);
    let ps = text_pairs(w, until);
    assert(rrule_parts(text) == Some(ps));
    if end_type == 2 {
        assert(rrule_until(text) == until);
        assert(lookup(ps, "COUNT"@) is None);
        assert(end_of(ps, tz, all_day) is Ok);
        assert(rule.end_type == 2);
        let step = until_step(all_day);
        assert(until_echoes(until, all_day, e));
        assert(until_millis(until, tz, all_day) == Ok::<i64, MappingError>(e as i64));
        lemma_until_tz_free(until, tz, all_day, e);
        assert(until_millis(until, tz, all_day) == Ok::<i64, MappingError>(until_back(w, all_day) as i64));
        lemma_until_back_in_range_of(e, all_day);
        assert(until_text(w, all_day) == until);
        assert(until_back(w, all_day) == e);
        lemma_until_shaped_free(until, all_day);
        assert(until_reads_back(w, all_day));
        assert(until_writable(w, all_day));
    } else if end_type == 1 {
        lemma_parse_dec_int(count as i64);
    }
    assert(rule_readable(w, all_day));
    lemma_rrule_round_trip(w, tz, all_day);
    lemma_text_is_joined_parts(w, all_day);
    assert(text_parts(w, until_text(w, all_day)) == text_parts(w, until));
    assert(rrule_text(w, all_day) == Ok::<Seq<char>, MappingError>(text));
    assert(rule_read_back(w, core) == rule);
}

/// An `UNTIL` value of the provider's shape reads the same in any zone; an
/// end that is a whole number of steps is its own start of day or second.
proof fn lemma_until_tz_free(u: Seq<char>, tz: Seq<char>, all_day: bool, e: int)
    requires
        until_shaped(u, all_day),
        e % until_step(all_day) == 0,
    ensures
        forall|tz2: Seq<char>|
            #[trigger] until_millis(u, tz2, all_day) == until_millis(u, tz, all_day),
        (e / until_step(all_day)) * until_step(all_day) == e,
{
    if !all_day {
        crate::text::lemma_byte_len_at_least_len(u);
        assert(u.last() == 'Z');
    }
    vstd::arithmetic::div_mod::lemma_fundamental_div_mod(e, until_step(all_day));
}

/// An end whose inclusive `UNTIL` lies in a year from 0 to 9999 lies in
/// chrono's range.
proof fn lemma_until_back_in_range_of(e: int, all_day: bool)
    requires
        crate::time::four_digit_year(e - until_step(all_day)),
    ensures
        in_range(e),
{
}

/// Tuta numbers its advanced repeat rules by a fixed table: type 0 is
/// `BYMINUTE`, 1 `BYHOUR`, 2 `BYDAY`, 3 `BYMONTHDAY`, 4 `BYYEARDAY`, 5
/// `BYWEEKNO`, 6 `BYMONTH`, 7 `BYSETPOS` and 8 `WKST`. A rule of each type
/// is written under that name, and that name reads back as that type; no
/// other type has a name.
pub proof fn lemma_tuta_rule_table()
    ensures
        rule_name(0) == Some("BYMINUTE"@) && rule_type("BYMINUTE"@) == Some(0i64),
        rule_name(1) == Some("BYHOUR"@) && rule_type("BYHOUR"@) == Some(1i64),
        rule_name(2) == Some("BYDAY"@) && rule_type("BYDAY"@) == Some(2i64),
        rule_name(3) == Some("BYMONTHDAY"@) && rule_type("BYMONTHDAY"@) == Some(3i64),
        rule_name(4) == Some("BYYEARDAY"@) && rule_type("BYYEARDAY"@) == Some(4i64),
        rule_name(5) == Some("BYWEEKNO"@) && rule_type("BYWEEKNO"@) == Some(5i64),
        rule_name(6) == Some("BYMONTH"@) && rule_type("BYMONTH"@) == Some(6i64),
        rule_name(7) == Some("BYSETPOS"@) && rule_type("BYSETPOS"@) == Some(7i64),
        rule_name(8) == Some("WKST"@) && rule_type("WKST"@) == Some(8i64),
        forall|t: int| (t < 0 || t > 8) ==> #[trigger] rule_name(t) is None,
        forall|j: int|
            0 <= j < 9 ==> rule_type(#[trigger] sorted_rule_name(j)) == Some(type_at(j) as i64),
{
    lemma_rule_names();
    assert(rule_type(rule_name(0)->0) == Some(0i64));
    assert(rule_type(rule_name(1)->0) == Some(1i64));
    assert(rule_type(rule_name(2)->0) == Some(2i64));
    assert(rule_type(rule_name(3)->0) == Some(3i64));
    assert(rule_type(rule_name(4)->0) == Some(4i64));
    assert(rule_type(rule_name(5)->0) == Some(5i64));
    assert(rule_type(rule_name(6)->0) == Some(6i64));
    assert(rule_type(rule_name(7)->0) == Some(7i64));
    assert(rule_type(rule_name(8)->0) == Some(8i64));
    assert forall|j: int| 0 <= j < 9 implies rule_type(#[trigger] sorted_rule_name(j)) == Some(
        type_at(j) as i64,
    ) by {
        assert(sorted_rule_name(j) == rule_name(type_at(j))->0);
        assert(rule_type(rule_name(type_at(j))->0) == Some(type_at(j) as i64));
    }
}

/// The frequencies are numbered `DAILY` 0, `WEEKLY` 1, `MONTHLY` 2 and
/// `YEARLY` 3, written under those names and read back from them.
pub proof fn lemma_frequency_table(ps: Seq<(Seq<char>, Seq<char>)>)
    ensures
        frequency_name(0) == Some("DAILY"@),
        frequency_name(1) == Some("WEEKLY"@),
        frequency_name(2) == Some("MONTHLY"@),
        frequency_name(3) == Some("YEARLY"@),
        forall|f: int| (f < 0 || f > 3) ==> #[trigger] frequency_name(f) is None,
        lookup(ps, "FREQ"@) == Some("DAILY"@) ==> frequency_of(ps) == Ok::<i64, MappingError>(0),
        lookup(ps, "FREQ"@) == Some("WEEKLY"@) ==> frequency_of(ps) == Ok::<i64, MappingError>(1),
        lookup(ps, "FREQ"@) == Some("MONTHLY"@) ==> frequency_of(ps) == Ok::<i64, MappingError>(2),
        lookup(ps, "FREQ"@) == Some("YEARLY"@) ==> frequency_of(ps) == Ok::<i64, MappingError>(3),
{
    reveal_strlit("DAILY");
    reveal_strlit("WEEKLY");
    reveal_strlit("MONTHLY");
    reveal_strlit("YEARLY");
    assert("DAILY"@[0] == 'D' && "WEEKLY"@[0] == 'W' && "MONTHLY"@[0] == 'M' && "YEARLY"@[0]
        == 'Y');
}

/// Tuta's end is exclusive and RRULE's `UNTIL` inclusive: the `UNTIL` of
/// an all-day rule is the date of the day before its end, and that of a
/// timed rule the UTC time of the second before its end.
pub proof fn lemma_until_is_inclusive(r: RepeatRuleView, all_day: bool)
    requires
        r.end_type == 2,
        r.end_value is Some,
        in_range(r.end_value->0 as int),
    ensures
        end_text(r, all_day) == Ok::<Seq<char>, MappingError>(
            ";UNTIL="@ + crate::time::spec_utc_format(
                (r.end_value->0 - (if all_day {
                    86_400_000int
                } else {
                    1000int
                })) as i64,
                if all_day {
                    "%Y%m%d"@
                } else {
                    "%Y%m%dT%H%M%SZ"@
                },
            ),
        ),
{
}

/// An `UNTIL` value reads as Tuta's exclusive end: the day after its date
/// for all-day rules, the second after its UTC time, or the second after
/// the earliest instant of its wall-clock time in the rule's zone.
pub proof fn lemma_until_read_exclusive(u: Seq<char>, tz: Seq<char>, all_day: bool)
    ensures
        all_day ==> (crate::time::spec_date_parse(u, "%Y%m%d"@) matches Some(d) ==> until_millis(
            u,
            tz,
            all_day,
        ) == Ok::<i64, MappingError>((d * 86_400_000int + 86_400_000int) as i64)),
        !all_day && crate::text::byte_len(u) != 8 && u.len() > 0 && u.last() == 'Z' ==> (
        crate::time::spec_datetime_parse(u, "%Y%m%dT%H%M%SZ"@) matches Some(secs) ==> until_millis(
            u,
            tz,
            all_day,
        ) == Ok::<i64, MappingError>((secs * 1000 + 1000) as i64)),
        !all_day && crate::text::byte_len(u) != 8 && !(u.len() > 0 && u.last() == 'Z') && crate::time::spec_tz_known(tz) ==> (
        crate::time::spec_datetime_parse(u, "%Y%m%dT%H%M%S"@) matches Some(l) ==> (
        crate::time::spec_zone_local_earliest(tz, (l * 1000) as i64) matches Some(ms) ==> until_millis(
            u,
            tz,
            all_day,
        ) == Ok::<i64, MappingError>((ms + 1000) as i64))),
{
}

} // verus!
