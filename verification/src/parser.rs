//! The output parser: turns the raw, human-readable, locale-dependent
//! text printed by the network tool into a structured settings record.
//!
//! Every informative line has the shape `Label: value`. Labels are
//! recognized in two locales (English and Spanish) by a case-sensitive
//! prefix match on the trimmed line; the value is what follows the first
//! colon, trimmed. Unrecognized lines are ignored, and the last
//! recognized line for a field wins. Parsing is total: it never fails,
//! whatever the input text.

use vstd::prelude::*;

use crate::settings::HostedNetworkSettings;
use crate::text::find_char_range;
use crate::text::find_idx;
use crate::text::is_wspace;
use crate::text::parse_u32_range;
use crate::text::parse_u32_spec;
use crate::text::range_starts_with;
use crate::text::split_lines;
use crate::text::starts_with;
use crate::text::str_eq_str;
use crate::text::to_lines;
use crate::text::trim_end_spec;
use crate::text::trim_range;
use crate::text::trim_spec;

verus! {

/// The trimmed line starts with one of the two locale labels.
pub open spec fn matches_label(line: Seq<char>, l1: Seq<char>, l2: Seq<char>) -> bool {
    starts_with(line, l1) || starts_with(line, l2)
}

/// The last line whose trimmed form carries one of the two labels,
/// trimmed; nothing if no line does.
pub open spec fn matched_line(lines: Seq<Seq<char>>, l1: Seq<char>, l2: Seq<char>) -> Option<
    Seq<char>,
>
    decreases lines.len(),
{
    if lines.len() == 0 {
        None
    } else if matches_label(trim_spec(lines.last()), l1, l2) {
        Some(trim_spec(lines.last()))
    } else {
        matched_line(lines.drop_last(), l1, l2)
    }
}

/// What follows the first colon of `line`, trimmed; nothing if the line
/// has no colon.
pub open spec fn value_after_colon(line: Seq<char>) -> Option<Seq<char>> {
    match find_idx(line, ':') {
        None => None,
        Some(i) => Some(trim_spec(line.subrange(i + 1, line.len() as int))),
    }
}

/// The value a labelled field takes from `lines`: the colon-trailing
/// value of the last line carrying one of the two labels.
pub open spec fn field_value(lines: Seq<Seq<char>>, l1: Seq<char>, l2: Seq<char>) -> Option<
    Seq<char>,
> {
    match matched_line(lines, l1, l2) {
        None => None,
        Some(t) => value_after_colon(t),
    }
}

/// Strips exactly one pair of surrounding quote characters, when both
/// ends carry one; otherwise leaves the value unchanged.
pub open spec fn strip_quotes_spec(v: Seq<char>) -> Seq<char> {
    if v.len() >= 2 && v[0] == '"' && v.last() == '"' {
        v.subrange(1, v.len() - 1)
    } else {
        v
    }
}

/// The `mode` field of the tool's status output.
pub open spec fn mode_of(out: Seq<char>) -> Option<Seq<char>> {
    field_value(split_lines(out), "Mode"@, "Modo"@)
}

/// The `ssid_name` field: the labelled value with one pair of
/// surrounding quotes stripped.
pub open spec fn ssid_of(out: Seq<char>) -> Option<Seq<char>> {
    match field_value(split_lines(out), "SSID name"@, "Nombre SSID"@) {
        None => None,
        Some(v) => Some(strip_quotes_spec(v)),
    }
}

/// The `max_clients` field: the labelled value read as a `u32`; absent
/// when the value is not a well-formed number.
pub open spec fn max_clients_of(out: Seq<char>) -> Option<u32> {
    match field_value(split_lines(out), "Max number of clients"@, "N máximo de clientes"@) {
        None => None,
        Some(v) => parse_u32_spec(v),
    }
}

/// The `authentication` field of the tool's status output.
pub open spec fn authentication_of(out: Seq<char>) -> Option<Seq<char>> {
    field_value(split_lines(out), "Authentication"@, "Autenticación"@)
}

/// The `cipher` field of the tool's status output.
pub open spec fn cipher_of(out: Seq<char>) -> Option<Seq<char>> {
    field_value(split_lines(out), "Cipher"@, "Cifrado"@)
}

/// The `status` field of the tool's status output.
pub open spec fn status_of(out: Seq<char>) -> Option<Seq<char>> {
    field_value(split_lines(out), "Status"@, "Estado"@)
}

/// A label a field can be recognized by: non-empty, not opening with
/// whitespace, and free of colons — every label of both locales is one.
pub open spec fn label_ok(lab: Seq<char>) -> bool {
    lab.len() > 0 && !is_wspace(lab[0]) && (forall|i: int| 0 <= i < lab.len() ==> lab[i] != ':')
}

/// Lines that match no label leave the matched line alone.
pub proof fn lemma_matched_line_skip_tail(
    x: Seq<Seq<char>>,
    post: Seq<Seq<char>>,
    l1: Seq<char>,
    l2: Seq<char>,
)
    requires
        forall|i: int| 0 <= i < post.len() ==> !matches_label(trim_spec(post[i]), l1, l2),
    ensures
        matched_line(x + post, l1, l2) == matched_line(x, l1, l2),
    decreases post.len(),
{
    if post.len() == 0 {
        assert(x + post =~= x);
    } else {
        let all = x + post;
        assert(all.last() == post.last());
        assert(!matches_label(trim_spec(post[post.len() - 1]), l1, l2));
        assert(all.drop_last() =~= x + post.drop_last());
        assert forall|i: int| 0 <= i < post.drop_last().len() implies !matches_label(
            trim_spec(post.drop_last()[i]),
            l1,
            l2,
        ) by {
            assert(post.drop_last()[i] == post[i]);
        }
        lemma_matched_line_skip_tail(x, post.drop_last(), l1, l2);
    }
}

/// The heart of locale-independent extraction: a well-formed
/// `Label: value` line, carrying either of a field's two labels, yields
/// exactly the trimmed value — wherever it stands, as long as no later
/// line names the field again.
pub proof fn lemma_labelled_line_value(
    pre: Seq<Seq<char>>,
    post: Seq<Seq<char>>,
    lab: Seq<char>,
    l1: Seq<char>,
    l2: Seq<char>,
    v: Seq<char>,
)
    requires
        lab == l1 || lab == l2,
        label_ok(lab),
        forall|i: int| 0 <= i < post.len() ==> !matches_label(trim_spec(post[i]), l1, l2),
    ensures
        field_value(pre.push(lab + seq![':'] + v) + post, l1, l2) == Some(trim_spec(v)),
{
    let line = lab + seq![':'] + v;
    let a = lab + seq![':'];
    assert(a.last() == ':');
    assert(!is_wspace(':'));
    assert(line =~= a + v);
    crate::text::lemma_trim_end_concat(a, v);
    let te = a + trim_end_spec(v);
    assert(te[0] == lab[0]);
    assert(trim_spec(line) == te);
    assert(te.subrange(0, lab.len() as int) =~= lab);
    assert(starts_with(te, lab));
    lemma_matched_line_skip_tail(pre.push(line), post, l1, l2);
    assert(pre.push(line).last() == line);
    assert(matches_label(trim_spec(line), l1, l2));
    assert(matched_line(pre.push(line), l1, l2) == Some(te));
    crate::text::lemma_find_idx(te, ':');
    assert(te[lab.len() as int] == ':');
    assert forall|j: int| 0 <= j < lab.len() implies te[j] != ':' by {
        assert(te[j] == lab[j]);
    }
    match find_idx(te, ':') {
        None => {
            assert(false);
        },
        Some(i) => {
            if i < lab.len() {
                assert(te[i] != ':');
                assert(false);
            }
            if i > lab.len() {
                assert(te[lab.len() as int] != ':');
                assert(false);
            }
        },
    }
    assert(find_idx(te, ':') == Some(lab.len() as int));
    assert(te.subrange(lab.len() as int + 1, te.len() as int) =~= trim_end_spec(v));
    crate::text::lemma_trim_end_idempotent(v);
    assert(value_after_colon(te) == Some(trim_spec(v)));
}

/// A well-formed `Label: value` line yields the same field value
/// whichever supported locale's label it carries — and that value is
/// the trimmed text after the colon.
pub proof fn lemma_locale_equivalence(
    pre: Seq<Seq<char>>,
    post: Seq<Seq<char>>,
    l1: Seq<char>,
    l2: Seq<char>,
    v: Seq<char>,
)
    requires
        label_ok(l1),
        label_ok(l2),
        forall|i: int| 0 <= i < post.len() ==> !matches_label(trim_spec(post[i]), l1, l2),
    ensures
        field_value(pre.push(l1 + seq![':'] + v) + post, l1, l2) == field_value(
            pre.push(l2 + seq![':'] + v) + post,
            l1,
            l2,
        ),
        field_value(pre.push(l1 + seq![':'] + v) + post, l1, l2) == Some(trim_spec(v)),
{
    lemma_labelled_line_value(pre, post, l1, l1, l2, v);
    lemma_labelled_line_value(pre, post, l2, l1, l2, v);
}

/// Arbitrary unstructured text: when no line carries a recognized
/// label, the field comes back absent.
pub proof fn lemma_unrecognized_lines_absent(lines: Seq<Seq<char>>, l1: Seq<char>, l2: Seq<char>)
    requires
        forall|i: int| 0 <= i < lines.len() ==> !matches_label(trim_spec(lines[i]), l1, l2),
    ensures
        field_value(lines, l1, l2) is None,
    decreases lines.len(),
{
    if lines.len() > 0 {
        assert(!matches_label(trim_spec(lines[lines.len() - 1]), l1, l2));
        assert forall|i: int| 0 <= i < lines.drop_last().len() implies !matches_label(
            trim_spec(lines.drop_last()[i]),
            l1,
            l2,
        ) by {
            assert(lines.drop_last()[i] == lines[i]);
        }
        lemma_unrecognized_lines_absent(lines.drop_last(), l1, l2);
    }
}

/// The trimmed line opens with a label the status parser recognizes,
/// in either locale.
pub open spec fn recognized_label_line(t: Seq<char>) -> bool {
    ||| matches_label(t, "Mode"@, "Modo"@)
    ||| matches_label(t, "SSID name"@, "Nombre SSID"@)
    ||| matches_label(t, "Max number of clients"@, "N máximo de clientes"@)
    ||| matches_label(t, "Authentication"@, "Autenticación"@)
    ||| matches_label(t, "Cipher"@, "Cifrado"@)
    ||| matches_label(t, "Status"@, "Estado"@)
}

/// Arbitrary unstructured text: when no line opens with a recognized
/// label, every parsed field comes back absent — parsing never fails,
/// it only leaves fields unset.
pub proof fn lemma_unstructured_output_absent(out: Seq<char>)
    requires
        forall|i: int| 0 <= i < split_lines(out).len() ==> !recognized_label_line(
            trim_spec(split_lines(out)[i]),
        ),
    ensures
        mode_of(out) is None,
        ssid_of(out) is None,
        max_clients_of(out) is None,
        authentication_of(out) is None,
        cipher_of(out) is None,
        status_of(out) is None,
{
    let lines = split_lines(out);
    assert forall|i: int| 0 <= i < lines.len() implies !matches_label(
        trim_spec(lines[i]),
        "Mode"@,
        "Modo"@,
    ) && !matches_label(trim_spec(lines[i]), "SSID name"@, "Nombre SSID"@) && !matches_label(
        trim_spec(lines[i]),
        "Max number of clients"@,
        "N máximo de clientes"@,
    ) && !matches_label(trim_spec(lines[i]), "Authentication"@, "Autenticación"@)
        && !matches_label(trim_spec(lines[i]), "Cipher"@, "Cifrado"@) && !matches_label(
        trim_spec(lines[i]),
        "Status"@,
        "Estado"@,
    ) by {
        assert(!recognized_label_line(trim_spec(lines[i])));
    }
    lemma_unrecognized_lines_absent(lines, "Mode"@, "Modo"@);
    lemma_unrecognized_lines_absent(lines, "SSID name"@, "Nombre SSID"@);
    lemma_unrecognized_lines_absent(lines, "Max number of clients"@, "N máximo de clientes"@);
    lemma_unrecognized_lines_absent(lines, "Authentication"@, "Autenticación"@);
    lemma_unrecognized_lines_absent(lines, "Cipher"@, "Cifrado"@);
    lemma_unrecognized_lines_absent(lines, "Status"@, "Estado"@);
}

/// One label of the recognized table is a well-formed field label.
pub proof fn lemma_label_ok(lab: Seq<char>)
    requires
        lab.len() > 0,
        !is_wspace(lab[0]),
        find_idx(lab, ':') is None,
    ensures
        label_ok(lab),
{
    crate::text::lemma_find_idx(lab, ':');
}

/// Every label of the recognized table, in both locales, is a
/// well-formed field label.
pub proof fn lemma_labels_ok()
    ensures
        label_ok("Mode"@) && label_ok("Modo"@),
        label_ok("SSID name"@) && label_ok("Nombre SSID"@),
        label_ok("Max number of clients"@) && label_ok("N máximo de clientes"@),
        label_ok("Authentication"@) && label_ok("Autenticación"@),
        label_ok("Cipher"@) && label_ok("Cifrado"@),
        label_ok("Status"@) && label_ok("Estado"@),
{
    reveal_strlit("Mode");
    assert(find_idx("Mode"@, ':') is None) by {
        reveal_with_fuel(find_idx, 6);
    }
    lemma_label_ok("Mode"@);
    reveal_strlit("Modo");
    assert(find_idx("Modo"@, ':') is None) by {
        reveal_with_fuel(find_idx, 6);
    }
    lemma_label_ok("Modo"@);
    reveal_strlit("SSID name");
    assert(find_idx("SSID name"@, ':') is None) by {
        reveal_with_fuel(find_idx, 11);
    }
    lemma_label_ok("SSID name"@);
    reveal_strlit("Nombre SSID");
    assert(find_idx("Nombre SSID"@, ':') is None) by {
        reveal_with_fuel(find_idx, 13);
    }
    lemma_label_ok("Nombre SSID"@);
    reveal_strlit("Max number of clients");
    assert(find_idx("Max number of clients"@, ':') is None) by {
        reveal_with_fuel(find_idx, 23);
    }
    lemma_label_ok("Max number of clients"@);
    reveal_strlit("N máximo de clientes");
    assert(find_idx("N máximo de clientes"@, ':') is None) by {
        reveal_with_fuel(find_idx, 22);
    }
    lemma_label_ok("N máximo de clientes"@);
    reveal_strlit("Authentication");
    assert(find_idx("Authentication"@, ':') is None) by {
        reveal_with_fuel(find_idx, 16);
    }
    lemma_label_ok("Authentication"@);
    reveal_strlit("Autenticación");
    assert(find_idx("Autenticación"@, ':') is None) by {
        reveal_with_fuel(find_idx, 15);
    }
    lemma_label_ok("Autenticación"@);
    reveal_strlit("Cipher");
    assert(find_idx("Cipher"@, ':') is None) by {
        reveal_with_fuel(find_idx, 8);
    }
    lemma_label_ok("Cipher"@);
    reveal_strlit("Cifrado");
    assert(find_idx("Cifrado"@, ':') is None) by {
        reveal_with_fuel(find_idx, 9);
    }
    lemma_label_ok("Cifrado"@);
    reveal_strlit("Status");
    assert(find_idx("Status"@, ':') is None) by {
        reveal_with_fuel(find_idx, 8);
    }
    lemma_label_ok("Status"@);
    reveal_strlit("Estado");
    assert(find_idx("Estado"@, ':') is None) by {
        reveal_with_fuel(find_idx, 8);
    }
    lemma_label_ok("Estado"@);
}

/// The locale law at work on the mode field: a line labelled
/// in either locale yields the same value, namely the trimmed text
/// after the colon.
pub proof fn lemma_mode_locale(pre: Seq<Seq<char>>, post: Seq<Seq<char>>, v: Seq<char>)
    requires
        forall|i: int| 0 <= i < post.len() ==> !matches_label(
            trim_spec(post[i]),
            "Mode"@,
            "Modo"@,
        ),
    ensures
        field_value(pre.push("Mode"@ + seq![':'] + v) + post, "Mode"@, "Modo"@) == Some(
            trim_spec(v),
        ),
        field_value(pre.push("Modo"@ + seq![':'] + v) + post, "Mode"@, "Modo"@) == Some(
            trim_spec(v),
        ),
{
    lemma_labels_ok();
    lemma_locale_equivalence(pre, post, "Mode"@, "Modo"@, v);
}

/// The locale law at work on the ssid field: a line labelled
/// in either locale yields the same value, namely the trimmed text
/// after the colon.
pub proof fn lemma_ssid_locale(pre: Seq<Seq<char>>, post: Seq<Seq<char>>, v: Seq<char>)
    requires
        forall|i: int| 0 <= i < post.len() ==> !matches_label(
            trim_spec(post[i]),
            "SSID name"@,
            "Nombre SSID"@,
        ),
    ensures
        field_value(pre.push("SSID name"@ + seq![':'] + v) + post, "SSID name"@, "Nombre SSID"@) == Some(
            trim_spec(v),
        ),
        field_value(pre.push("Nombre SSID"@ + seq![':'] + v) + post, "SSID name"@, "Nombre SSID"@) == Some(
            trim_spec(v),
        ),
{
    lemma_labels_ok();
    lemma_locale_equivalence(pre, post, "SSID name"@, "Nombre SSID"@, v);
}

/// The locale law at work on the max clients field: a line labelled
/// in either locale yields the same value, namely the trimmed text
/// after the colon.
pub proof fn lemma_max_clients_locale(pre: Seq<Seq<char>>, post: Seq<Seq<char>>, v: Seq<char>)
    requires
        forall|i: int| 0 <= i < post.len() ==> !matches_label(
            trim_spec(post[i]),
            "Max number of clients"@,
            "N máximo de clientes"@,
        ),
    ensures
        field_value(pre.push("Max number of clients"@ + seq![':'] + v) + post, "Max number of clients"@, "N máximo de clientes"@) == Some(
            trim_spec(v),
        ),
        field_value(pre.push("N máximo de clientes"@ + seq![':'] + v) + post, "Max number of clients"@, "N máximo de clientes"@) == Some(
            trim_spec(v),
        ),
{
    lemma_labels_ok();
    lemma_locale_equivalence(pre, post, "Max number of clients"@, "N máximo de clientes"@, v);
}

/// The locale law at work on the authentication field: a line labelled
/// in either locale yields the same value, namely the trimmed text
/// after the colon.
pub proof fn lemma_authentication_locale(pre: Seq<Seq<char>>, post: Seq<Seq<char>>, v: Seq<char>)
    requires
        forall|i: int| 0 <= i < post.len() ==> !matches_label(
            trim_spec(post[i]),
            "Authentication"@,
            "Autenticación"@,
        ),
    ensures
        field_value(pre.push("Authentication"@ + seq![':'] + v) + post, "Authentication"@, "Autenticación"@) == Some(
            trim_spec(v),
        ),
        field_value(pre.push("Autenticación"@ + seq![':'] + v) + post, "Authentication"@, "Autenticación"@) == Some(
            trim_spec(v),
        ),
{
    lemma_labels_ok();
    lemma_locale_equivalence(pre, post, "Authentication"@, "Autenticación"@, v);
}

/// The locale law at work on the cipher field: a line labelled
/// in either locale yields the same value, namely the trimmed text
/// after the colon.
pub proof fn lemma_cipher_locale(pre: Seq<Seq<char>>, post: Seq<Seq<char>>, v: Seq<char>)
    requires
        forall|i: int| 0 <= i < post.len() ==> !matches_label(
            trim_spec(post[i]),
            "Cipher"@,
            "Cifrado"@,
        ),
    ensures
        field_value(pre.push("Cipher"@ + seq![':'] + v) + post, "Cipher"@, "Cifrado"@) == Some(
            trim_spec(v),
        ),
        field_value(pre.push("Cifrado"@ + seq![':'] + v) + post, "Cipher"@, "Cifrado"@) == Some(
            trim_spec(v),
        ),
{
    lemma_labels_ok();
    lemma_locale_equivalence(pre, post, "Cipher"@, "Cifrado"@, v);
}

/// The locale law at work on the status field: a line labelled
/// in either locale yields the same value, namely the trimmed text
/// after the colon.
pub proof fn lemma_status_locale(pre: Seq<Seq<char>>, post: Seq<Seq<char>>, v: Seq<char>)
    requires
        forall|i: int| 0 <= i < post.len() ==> !matches_label(
            trim_spec(post[i]),
            "Status"@,
            "Estado"@,
        ),
    ensures
        field_value(pre.push("Status"@ + seq![':'] + v) + post, "Status"@, "Estado"@) == Some(
            trim_spec(v),
        ),
        field_value(pre.push("Estado"@ + seq![':'] + v) + post, "Status"@, "Estado"@) == Some(
            trim_spec(v),
        ),
{
    lemma_labels_ok();
    lemma_locale_equivalence(pre, post, "Status"@, "Estado"@, v);
}

/// Quote stripping removes exactly one pair of surrounding quote
/// characters when both ends carry one.
pub proof fn lemma_strip_quotes_pair(v: Seq<char>)
    requires
        v.len() >= 2,
        v[0] == '"',
        v.last() == '"',
    ensures
        strip_quotes_spec(v) == v.subrange(1, v.len() - 1),
{
}

/// Quote stripping is a no-op on a value not surrounded by quotes.
pub proof fn lemma_strip_quotes_no_quotes(v: Seq<char>)
    requires
        v.len() < 2 || v[0] != '"' || v.last() != '"',
    ensures
        strip_quotes_spec(v) == v,
{
}

/// The trimmed line names the user security key itself — and not the
/// longer "usage" label, which would otherwise match by prefix.
pub open spec fn sec_match(t: Seq<char>) -> bool {
    ||| (starts_with(t, "User security key"@) && !starts_with(t, "User security key usage"@))
    ||| (starts_with(t, "Clave de seguridad de usuario"@) && !starts_with(
        t,
        "Clave de seguridad del sistema"@,
    ))
}

/// The first line whose trimmed form names the security key, trimmed.
pub open spec fn sec_line(lines: Seq<Seq<char>>) -> Option<Seq<char>>
    decreases lines.len(),
{
    if lines.len() == 0 {
        None
    } else if sec_match(trim_spec(lines.first())) {
        Some(trim_spec(lines.first()))
    } else {
        sec_line(lines.drop_first())
    }
}

/// The colon-trailing value of `line`, or empty when it has no colon.
pub open spec fn colon_value_or_empty(line: Seq<char>) -> Seq<char> {
    match value_after_colon(line) {
        None => Seq::<char>::empty(),
        Some(v) => v,
    }
}

/// A value that means "no key available": empty, or one of the literal
/// sentinel strings the tool prints for an unset key.
pub open spec fn is_no_key_value(v: Seq<char>) -> bool {
    ||| v.len() == 0
    ||| v == "<Not specified>"@
    ||| v == "<No especificada>"@
}

/// The passphrase recovered from the security-settings output: the value
/// of the first line naming the user security key, unless that value is
/// a "not specified" sentinel or empty.
pub open spec fn security_key_of(out: Seq<char>) -> Option<Seq<char>> {
    match sec_line(split_lines(out)) {
        None => None,
        Some(t) => if is_no_key_value(colon_value_or_empty(t)) {
            None
        } else {
            Some(colon_value_or_empty(t))
        },
    }
}

/// A line carrying the longer "key usage" label never matches the
/// user-security-key extraction, though the key label is its prefix.
pub proof fn lemma_usage_line_excluded(t: Seq<char>)
    requires
        starts_with(t, "User security key usage"@),
    ensures
        !sec_match(t),
{
    reveal_strlit("User security key usage");
    reveal_strlit("Clave de seguridad de usuario");
    assert(t.subrange(0, "User security key usage"@.len() as int) == "User security key usage"@);
    assert(t.subrange(0, "User security key usage"@.len() as int)[0] == t[0]);
    assert(t[0] == 'U');
    if starts_with(t, "Clave de seguridad de usuario"@) {
        assert(t.subrange(0, "Clave de seguridad de usuario"@.len() as int)
            == "Clave de seguridad de usuario"@);
        assert(t.subrange(0, "Clave de seguridad de usuario"@.len() as int)[0] == t[0]);
        assert(t[0] == 'C');
        assert(false);
    }
}

/// The security-key scan passes over a line that does not name the
/// key — such as a "key usage" line — and settles on what follows.
pub proof fn lemma_sec_line_skips_nonmatching(l: Seq<char>, rest: Seq<Seq<char>>)
    requires
        !sec_match(trim_spec(l)),
    ensures
        sec_line(seq![l].add(rest)) == sec_line(rest),
{
    assert(seq![l].add(rest).first() == l);
    assert(seq![l].add(rest).drop_first() =~= rest);
}

/// A recovered security-key value that is empty or one of the literal
/// "not specified" sentinels means no key is available — never the
/// sentinel text itself.
pub proof fn lemma_sentinel_means_no_key(out: Seq<char>)
    requires
        sec_line(split_lines(out)) matches Some(t) && is_no_key_value(colon_value_or_empty(t)),
    ensures
        security_key_of(out) is None,
{
}

/// Whether the trimmed line names the user security key.
fn sec_line_matches(line: &String) -> (r: bool)
    ensures
        r == sec_match(trim_spec(line@)),
{
    let s = line.as_str();
    let n = s.unicode_len();
    proof {
        assert(s@.subrange(0, n as int) =~= s@);
    }
    let (a, b) = trim_range(s, 0, n);
    let m_en = range_starts_with(s, a, b, "User security key") && !range_starts_with(
        s,
        a,
        b,
        "User security key usage",
    );
    let m_es = range_starts_with(s, a, b, "Clave de seguridad de usuario") && !range_starts_with(
        s,
        a,
        b,
        "Clave de seguridad del sistema",
    );
    m_en || m_es
}

/// The colon-trailing value of the trimmed line, or an empty string.
fn line_value_or_empty(line: &String) -> (r: String)
    ensures
        r@ == colon_value_or_empty(trim_spec(line@)),
{
    let s = line.as_str();
    let n = s.unicode_len();
    proof {
        assert(s@.subrange(0, n as int) =~= s@);
    }
    let (a, b) = trim_range(s, 0, n);
    let ghost t = trim_spec(line@);
    match find_char_range(s, a, b, ':') {
        None => String::new(),
        Some(k) => {
            proof {
                assert(t.subrange(k - a + 1, t.len() as int) =~= s@.subrange(k + 1, b as int));
            }
            let (c, d) = trim_range(s, k + 1, b);
            String::from_str(s.substring_char(c, d))
        },
    }
}

/// Recovers the configured passphrase from the security-settings output
/// of the network tool.
///
/// Scans for the first line naming the user security key — explicitly
/// not the longer "key usage" label — and returns its value, treating
/// the "not specified" sentinels of either locale and an empty value as
/// "no key available" rather than as literal text.
pub fn parse_security_key_output(output: &str) -> (r: Option<String>)
    ensures
        r.deep_view() == security_key_of(output@),
{
    let lines = to_lines(output);
    let ghost lv = lines.deep_view();
    proof {
        assert(lv.subrange(0, lv.len() as int) =~= lv);
    }
    let mut idx: usize = 0;
    while idx < lines.len()
        invariant
            0 <= idx <= lines.len(),
            lv == lines.deep_view(),
            lv == split_lines(output@),
            sec_line(lv) == sec_line(lv.subrange(idx as int, lv.len() as int)),
        decreases lines.len() - idx,
    {
        proof {
            assert(lv[idx as int] == lines[idx as int]@);
        }
        let matched = sec_line_matches(&lines[idx]);
        proof {
            let tail = lv.subrange(idx as int, lv.len() as int);
            assert(tail.first() == lv[idx as int]);
            assert(tail.drop_first() =~= lv.subrange(idx + 1, lv.len() as int));
            if matched {
                assert(sec_line(tail) == Some(trim_spec(lv[idx as int])));
            }
        }
        if matched {
            let v = line_value_or_empty(&lines[idx]);
            let vn = v.as_str().unicode_len();
            if vn == 0 || str_eq_str(v.as_str(), "<Not specified>") || str_eq_str(
                v.as_str(),
                "<No especificada>",
            ) {
                return None;
            }
            return Some(v);
        }
        idx += 1;
    }
    proof {
        assert(lv.subrange(lv.len() as int, lv.len() as int) =~= Seq::<Seq<char>>::empty());
    }
    None
}

/// Tests one line against a field's two locale labels and extracts its
/// colon-trailing value. The value is only meaningful when the line
/// matches.
fn match_and_value(line: &String, l1: &str, l2: &str) -> (r: (bool, Option<String>))
    ensures
        r.0 == matches_label(trim_spec(line@), l1@, l2@),
        r.0 ==> r.1.deep_view() == value_after_colon(trim_spec(line@)),
{
    let s = line.as_str();
    let n = s.unicode_len();
    proof {
        assert(s@.subrange(0, n as int) =~= s@);
    }
    let (a, b) = trim_range(s, 0, n);
    let ghost t = trim_spec(line@);
    let matched = range_starts_with(s, a, b, l1) || range_starts_with(s, a, b, l2);
    if !matched {
        return (false, None);
    }
    match find_char_range(s, a, b, ':') {
        None => (true, None),
        Some(k) => {
            proof {
                assert(t.subrange(k - a + 1, t.len() as int) =~= s@.subrange(k + 1, b as int));
            }
            let (c, d) = trim_range(s, k + 1, b);
            let v = String::from_str(s.substring_char(c, d));
            (true, Some(v))
        },
    }
}

/// The value with one pair of surrounding quote characters stripped.
pub fn strip_quotes(v: &String) -> (r: String)
    ensures
        r@ == strip_quotes_spec(v@),
{
    let s = v.as_str();
    let n = s.unicode_len();
    if n >= 2 && s.get_char(0) == '"' && s.get_char(n - 1) == '"' {
        String::from_str(s.substring_char(1, n - 1))
    } else {
        v.clone()
    }
}

/// Scans all lines for a field's two locale labels and returns the value
/// of the last line that carries one.
fn extract_field(lines: &Vec<String>, l1: &str, l2: &str) -> (r: Option<String>)
    ensures
        r.deep_view() == field_value(lines.deep_view(), l1@, l2@),
{
    let ghost lv = lines.deep_view();
    let mut result: Option<String> = None;
    proof {
        assert(lv.subrange(0, 0) =~= Seq::<Seq<char>>::empty());
    }
    let mut idx: usize = 0;
    while idx < lines.len()
        invariant
            0 <= idx <= lines.len(),
            lv == lines.deep_view(),
            result.deep_view() == field_value(lv.subrange(0, idx as int), l1@, l2@),
        decreases lines.len() - idx,
    {
        proof {
            assert(lv[idx as int] == lines[idx as int]@);
        }
        let (m, v) = match_and_value(&lines[idx], l1, l2);
        proof {
            let pre = lv.subrange(0, idx + 1);
            assert(pre.drop_last() =~= lv.subrange(0, idx as int));
            assert(pre.last() == lv[idx as int]);
        }
        if m {
            result = v;
        }
        idx += 1;
    }
    proof {
        assert(lv.subrange(0, lines.deep_view().len() as int) =~= lv);
    }
    result
}

/// Parses the status output of the network tool into a settings record.
///
/// Total on arbitrary text: whatever `output` holds, the record comes
/// back, each field carrying the value of the last line that names it in
/// either locale, and the passphrase copied verbatim from `key` — the
/// tool never echoes the passphrase, so it is always supplied by the
/// caller.
pub fn parse_hosted_network_output(output: &str, key: String) -> (r: HostedNetworkSettings)
    ensures
        r.mode.deep_view() == mode_of(output@),
        r.ssid_name.deep_view() == ssid_of(output@),
        r.max_clients == max_clients_of(output@),
        r.authentication.deep_view() == authentication_of(output@),
        r.cipher.deep_view() == cipher_of(output@),
        r.status.deep_view() == status_of(output@),
        r.key == Some(key),
{
    let lines = to_lines(output);
    let mode = extract_field(&lines, "Mode", "Modo");
    let ssid_raw = extract_field(&lines, "SSID name", "Nombre SSID");
    let ssid_name = match ssid_raw {
        None => None,
        Some(v) => Some(strip_quotes(&v)),
    };
    let max_raw = extract_field(&lines, "Max number of clients", "N máximo de clientes");
    let max_clients = match max_raw {
        None => None,
        Some(v) => {
            let vs = v.as_str();
            let vn = vs.unicode_len();
            proof {
                assert(vs@.subrange(0, vn as int) =~= vs@);
            }
            parse_u32_range(vs, 0, vn)
        },
    };
    let authentication = extract_field(&lines, "Authentication", "Autenticación");
    let cipher = extract_field(&lines, "Cipher", "Cifrado");
    let status = extract_field(&lines, "Status", "Estado");
    HostedNetworkSettings { mode, ssid_name, max_clients, authentication, cipher, status, key: Some(key) }
}

} // verus!
