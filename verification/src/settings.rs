//! Interpreting configuration values: booleans, positive limits, optional
//! texts, comma-separated lists and the trusted-proxy settings.
use vstd::prelude::*;
use crate::text::{
    trim, norm_key, to_chars, trim_chars, from_chars, chars_eq_str, norm_key_of, trim_non_empty,
    trim_non_empty_spec, split_fields, split_on, vecs_view, dec_nat, dec_int, digit_char, is_ws,
    lemma_trim_range,
};
use crate::headers::TrustedProxyConfig;

verus! {

/// Whether every character is an ASCII digit.
pub open spec fn all_digits(d: Seq<char>) -> bool {
    forall|i: int| 0 <= i < d.len() ==> '0' <= #[trigger] d[i] && d[i] <= '9'
}

/// The value of a string of decimal digits.
pub open spec fn digits_value(d: Seq<char>) -> nat
    decreases d.len(),
{
    if d.len() == 0 {
        0
    } else {
        digits_value(d.drop_last()) * 10 + ((d.last() as int) - ('0' as int)) as nat
    }
}

/// What Rust's integer `parse` reads: an optional `+` (or `-` for signed
/// types) and at least one decimal digit, nothing else.
pub open spec fn parse_int_spec(s: Seq<char>, signed: bool) -> Option<int> {
    if s.len() == 0 {
        None
    } else {
        let neg = s[0] == '-' && signed;
        let d = if s[0] == '+' || neg {
            s.drop_first()
        } else {
            s
        };
        if d.len() == 0 || !all_digits(d) {
            None
        } else if neg {
            Some(-(digits_value(d) as int))
        } else {
            Some(digits_value(d) as int)
        }
    }
}

/// `str::parse::<i64>`.
pub open spec fn parse_i64_spec(s: Seq<char>) -> Option<i64> {
    match parse_int_spec(s, true) {
        Some(v) => if i64::MIN <= v <= i64::MAX {
            Some(v as i64)
        } else {
            None
        },
        None => None,
    }
}

/// `str::parse::<usize>`.
pub open spec fn parse_usize_spec(s: Seq<char>) -> Option<usize> {
    match parse_int_spec(s, false) {
        Some(v) => if 0 <= v <= usize::MAX {
            Some(v as usize)
        } else {
            None
        },
        None => None,
    }
}

proof fn lemma_digits_prefix_le(d: Seq<char>, k: int)
    requires
        0 <= k <= d.len(),
    ensures
        digits_value(d.take(k)) <= digits_value(d),
    decreases d.len() - k,
{
    if k < d.len() {
        lemma_digits_prefix_le(d, k + 1);
        assert(d.take(k + 1).drop_last() =~= d.take(k));
    } else {
        assert(d.take(k) =~= d);
    }
}

fn all_digits_exec(d: &[char]) -> (r: bool)
    ensures
        r == all_digits(d@),
{
    let mut i: usize = 0;
    while i < d.len()
        invariant
            i <= d@.len(),
            forall|k: int| 0 <= k < i ==> '0' <= #[trigger] d@[k] && d@[k] <= '9',
        decreases d.len() - i,
    {
        if !('0' <= d[i] && d[i] <= '9') {
            return false;
        }
        i = i + 1;
    }
    true
}

/// The value of a digit string, or none when it is above `cap`.
fn digits_up_to(d: &[char], cap: u128) -> (r: Option<u128>)
    requires
        all_digits(d@),
        cap <= 0x1_0000_0000_0000_0000u128,
    ensures
        match r {
            Some(v) => v == digits_value(d@) && v <= cap,
            None => digits_value(d@) > cap,
        },
{
    let mut acc: u128 = 0;
    let mut i: usize = 0;
    assert(d@.take(0) =~= Seq::<char>::empty());
    while i < d.len()
        invariant
            i <= d@.len(),
            all_digits(d@),
            cap <= 0x1_0000_0000_0000_0000u128,
            acc == digits_value(d@.take(i as int)),
            acc <= cap,
        decreases d.len() - i,
    {
        let c = d[i];
        assert('0' <= d@[i as int] && d@[i as int] <= '9');
        let dig: u128 = ((c as u32) - 48) as u128;
        let next: u128 = acc * 10 + dig;
        assert(d@.take(i + 1).drop_last() =~= d@.take(i as int));
        assert(next == digits_value(d@.take(i + 1)));
        if next > cap {
            proof {
                lemma_digits_prefix_le(d@, i + 1);
            }
            return None;
        }
        acc = next;
        i = i + 1;
    }
    assert(d@.take(d@.len() as int) =~= d@);
    Some(acc)
}

/// `str::parse::<i64>`, written out.
pub fn parse_i64_text(s: &[char]) -> (r: Option<i64>)
    ensures
        r == parse_i64_spec(s@),
        forall|n: i64| #[trigger] dec_int(n as int) == s@ ==> r == Some(n),
{
    proof {
        assert forall|n: i64| #[trigger] dec_int(n as int) == s@ implies parse_i64_spec(s@) == Some(n) by {
            law_decimal_text_reads_back(n);
        }
    }
    if s.len() == 0 {
        return None;
    }
    let neg = s[0] == '-';
    let start: usize = if s[0] == '+' || neg {
        1
    } else {
        0
    };
    let d = crate::text::slice_chars(s, start, s.len());
    proof {
        if start == 1 {
            assert(d@ =~= s@.drop_first());
        } else {
            assert(d@ =~= s@);
        }
    }
    if d.len() == 0 || !all_digits_exec(d.as_slice()) {
        return None;
    }
    let cap: u128 = if neg {
        0x8000_0000_0000_0000u128
    } else {
        0x7fff_ffff_ffff_ffffu128
    };
    match digits_up_to(d.as_slice(), cap) {
        None => None,
        Some(m) => if neg {
            Some((-(m as i128)) as i64)
        } else {
            Some(m as i64)
        },
    }
}

/// `str::parse::<usize>`, written out.
pub fn parse_usize_text(s: &[char]) -> (r: Option<usize>)
    ensures
        r == parse_usize_spec(s@),
        forall|n: usize| #[trigger] dec_nat(n as nat) == s@ ==> r == Some(n),
{
    proof {
        assert forall|n: usize| #[trigger] dec_nat(n as nat) == s@ implies parse_usize_spec(s@) == Some(n) by {
            law_decimal_size_reads_back(n);
        }
    }
    if s.len() == 0 {
        return None;
    }
    let start: usize = if s[0] == '+' {
        1
    } else {
        0
    };
    let d = crate::text::slice_chars(s, start, s.len());
    proof {
        if start == 1 {
            assert(d@ =~= s@.drop_first());
        } else {
            assert(d@ =~= s@);
        }
    }
    if d.len() == 0 || !all_digits_exec(d.as_slice()) {
        return None;
    }
    match digits_up_to(d.as_slice(), usize::MAX as u128) {
        None => None,
        Some(m) => Some(m as usize),
    }
}

pub open spec fn opt_text(raw: Option<&str>) -> Option<Seq<char>> {
    match raw {
        Some(s) => Some(s@),
        None => None,
    }
}

/// A positive `i64` setting: the trimmed value must parse and be above
/// zero.
pub open spec fn positive_i64_setting(raw: Option<Seq<char>>) -> Option<i64> {
    match raw {
        Some(s) => match parse_i64_spec(trim(s)) {
            Some(v) => if v > 0 {
                Some(v)
            } else {
                None
            },
            None => None,
        },
        None => None,
    }
}

/// A positive `usize` setting.
pub open spec fn positive_usize_setting(raw: Option<Seq<char>>) -> Option<usize> {
    match raw {
        Some(s) => match parse_usize_spec(trim(s)) {
            Some(v) => if v > 0 {
                Some(v)
            } else {
                None
            },
            None => None,
        },
        None => None,
    }
}

/// The decimal text of a natural number is a non-empty run of digits whose
/// value is that number.
proof fn lemma_dec_nat_digits(n: nat)
    ensures
        dec_nat(n).len() > 0,
        all_digits(dec_nat(n)),
        digits_value(dec_nat(n)) == n,
        dec_nat(n)[0] != '+' && dec_nat(n)[0] != '-',
        !is_ws(dec_nat(n)[0]) && !is_ws(dec_nat(n).last()),
    decreases n,
{
    let s = dec_nat(n);
    if n < 10 {
        assert(s.drop_last() =~= Seq::<char>::empty());
        assert(digit_char(n as int) as int == '0' as int + n);
        assert(digits_value(s.drop_last()) == 0);
        assert(s.last() == digit_char(n as int));
        assert(digits_value(s) == n);
    } else {
        lemma_dec_nat_digits(n / 10);
        let p = dec_nat(n / 10);
        assert(s.drop_last() =~= p);
        assert(digit_char(n as int % 10) as int == '0' as int + n % 10);
        assert forall|i: int| 0 <= i < s.len() implies '0' <= #[trigger] s[i] && s[i] <= '9' by {
            if i < s.len() - 1 {
                assert(s[i] == p[i]);
            }
        }
        assert(s[0] == p[0]);
        assert(s.last() == digit_char(n as int % 10));
        assert(digits_value(s) == digits_value(p) * 10 + n % 10);
        assert((n / 10) * 10 + n % 10 == n) by (nonlinear_arith);
    }
}

/// The decimal text of a `usize`, as `{}` writes it, reads back as that
/// number.
pub proof fn law_decimal_size_reads_back(n: usize)
    ensures
        parse_usize_spec(dec_nat(n as nat)) == Some(n),
        n > 0 ==> positive_usize_setting(Some(dec_nat(n as nat))) == Some(n),
        n == 0 ==> positive_usize_setting(Some(dec_nat(n as nat))) is None,
{
    let s = dec_nat(n as nat);
    lemma_dec_nat_digits(n as nat);
    lemma_trim_range(s, 0, s.len() as int);
    assert(s.subrange(0, s.len() as int) =~= s);
}

/// A decimal integer, as `{}` writes it, reads back as that integer.
pub proof fn law_decimal_text_reads_back(n: i64)
    ensures
        parse_i64_spec(dec_int(n as int)) == Some(n),
        n > 0 ==> positive_i64_setting(Some(dec_int(n as int))) == Some(n),
        n <= 0 ==> positive_i64_setting(Some(dec_int(n as int))) is None,
{
    let s = dec_int(n as int);
    if n < 0 {
        let m = (-n) as nat;
        lemma_dec_nat_digits(m);
        assert(s.drop_first() =~= dec_nat(m));
        assert(!is_ws(s[0]));
        assert(s.last() == dec_nat(m).last());
    } else {
        lemma_dec_nat_digits(n as nat);
    }
    lemma_trim_range(s, 0, s.len() as int);
    assert(s.subrange(0, s.len() as int) =~= s);
}

/// Reads a positive `i64` setting (such as a tenant limit).
pub fn parse_positive_i64_setting(raw: Option<&str>) -> (r: Option<i64>)
    ensures
        r == positive_i64_setting(opt_text(raw)),
        raw is None ==> r is None,
        r matches Some(v) ==> v > 0,
        raw matches Some(s) ==> forall|n: i64|
            n > 0 && #[trigger] dec_int(n as int) == trim(s@) ==> r == Some(n),
{
    proof {
        if let Some(s) = raw {
            assert forall|n: i64| n > 0 && #[trigger] dec_int(n as int) == trim(s@) implies positive_i64_setting(
                opt_text(raw),
            ) == Some(n) by {
                law_decimal_text_reads_back(n);
            }
        }
    }
    match raw {
        None => None,
        Some(s) => {
            let c = to_chars(s);
            let t = trim_chars(c.as_slice());
            match parse_i64_text(t.as_slice()) {
                Some(v) => if v > 0 {
                    Some(v)
                } else {
                    None
                },
                None => None,
            }
        },
    }
}

/// Reads a positive `usize` setting (such as a size limit).
pub fn parse_positive_usize_setting(raw: Option<&str>) -> (r: Option<usize>)
    ensures
        r == positive_usize_setting(opt_text(raw)),
        raw is None ==> r is None,
        r matches Some(v) ==> v > 0,
        raw matches Some(s) ==> forall|n: usize|
            n > 0 && #[trigger] dec_nat(n as nat) == trim(s@) ==> r == Some(n),
{
    proof {
        if let Some(s) = raw {
            assert forall|n: usize| n > 0 && #[trigger] dec_nat(n as nat) == trim(s@) implies positive_usize_setting(
                opt_text(raw),
            ) == Some(n) by {
                law_decimal_size_reads_back(n);
            }
        }
    }
    match raw {
        None => None,
        Some(s) => {
            let c = to_chars(s);
            let t = trim_chars(c.as_slice());
            match parse_usize_text(t.as_slice()) {
                Some(v) => if v > 0 {
                    Some(v)
                } else {
                    None
                },
                None => None,
            }
        },
    }
}

/// A boolean setting: `1`, `true`, `yes`, `on` and `0`, `false`, `no`,
/// `off` (trimmed, ASCII case-insensitive); anything else is the default.
pub open spec fn bool_setting(raw: Option<Seq<char>>, default: bool) -> bool {
    match raw {
        Some(s) => {
            let k = norm_key(s);
            if k == "1"@ || k == "true"@ || k == "yes"@ || k == "on"@ {
                true
            } else if k == "0"@ || k == "false"@ || k == "no"@ || k == "off"@ {
                false
            } else {
                default
            }
        },
        None => default,
    }
}

/// Each truthy spelling (`1`, `true`, `yes`, `on`) reads as true and each
/// falsy one (`0`, `false`, `no`, `off`) as false, whatever the default,
/// once trimmed and in any ASCII case; any other text, and an unset
/// setting, reads as the default.
pub proof fn law_bool_spellings_override_default(s: Seq<char>, default: bool)
    ensures
        norm_key(s) == "1"@ ==> bool_setting(Some(s), default),
        norm_key(s) == "true"@ ==> bool_setting(Some(s), default),
        norm_key(s) == "yes"@ ==> bool_setting(Some(s), default),
        norm_key(s) == "on"@ ==> bool_setting(Some(s), default),
        norm_key(s) == "0"@ ==> !bool_setting(Some(s), default),
        norm_key(s) == "false"@ ==> !bool_setting(Some(s), default),
        norm_key(s) == "no"@ ==> !bool_setting(Some(s), default),
        norm_key(s) == "off"@ ==> !bool_setting(Some(s), default),
        norm_key(s) != "1"@
            && norm_key(s) != "true"@
            && norm_key(s) != "yes"@
            && norm_key(s) != "on"@
            && norm_key(s) != "0"@
            && norm_key(s) != "false"@
            && norm_key(s) != "no"@
            && norm_key(s) != "off"@
            ==> bool_setting(Some(s), default) == default,
        bool_setting(None, default) == default,
        s == "1"@ ==> bool_setting(Some(s), default),
        s == "true"@ ==> bool_setting(Some(s), default),
        s == "yes"@ ==> bool_setting(Some(s), default),
        s == "on"@ ==> bool_setting(Some(s), default),
        s == "0"@ ==> !bool_setting(Some(s), default),
        s == "false"@ ==> !bool_setting(Some(s), default),
        s == "no"@ ==> !bool_setting(Some(s), default),
        s == "off"@ ==> !bool_setting(Some(s), default),
{
    reveal_strlit("1");
    reveal_strlit("true");
    reveal_strlit("yes");
    reveal_strlit("on");
    reveal_strlit("0");
    reveal_strlit("false");
    reveal_strlit("no");
    reveal_strlit("off");
    if s == "1"@ || s == "true"@ || s == "yes"@ || s == "on"@ || s == "0"@ || s == "false"@
        || s == "no"@ || s == "off"@ {
        crate::text::lemma_norm_key_of_plain(s);
    }
    assert("1"@ != "0"@) by {
        assert("1"@[0] != "0"@[0]);
    }
    assert("1"@ != "false"@) by {
        assert("1"@.len() != "false"@.len());
    }
    assert("1"@ != "no"@) by {
        assert("1"@.len() != "no"@.len());
    }
    assert("1"@ != "off"@) by {
        assert("1"@.len() != "off"@.len());
    }
    assert("true"@ != "0"@) by {
        assert("true"@.len() != "0"@.len());
    }
    assert("true"@ != "false"@) by {
        assert("true"@.len() != "false"@.len());
    }
    assert("true"@ != "no"@) by {
        assert("true"@.len() != "no"@.len());
    }
    assert("true"@ != "off"@) by {
        assert("true"@.len() != "off"@.len());
    }
    assert("yes"@ != "0"@) by {
        assert("yes"@.len() != "0"@.len());
    }
    assert("yes"@ != "false"@) by {
        assert("yes"@.len() != "false"@.len());
    }
    assert("yes"@ != "no"@) by {
        assert("yes"@.len() != "no"@.len());
    }
    assert("yes"@ != "off"@) by {
        assert("yes"@[0] != "off"@[0]);
    }
    assert("on"@ != "0"@) by {
        assert("on"@.len() != "0"@.len());
    }
    assert("on"@ != "false"@) by {
        assert("on"@.len() != "false"@.len());
    }
    assert("on"@ != "no"@) by {
        assert("on"@[0] != "no"@[0]);
    }
    assert("on"@ != "off"@) by {
        assert("on"@.len() != "off"@.len());
    }
}

/// Reads a boolean setting.
pub fn parse_bool_setting(raw: Option<&str>, default: bool) -> (r: bool)
    ensures
        r == bool_setting(opt_text(raw), default),
        raw matches Some(s) ==> (norm_key(s@) == "1"@ ==> r),
        raw matches Some(s) ==> (norm_key(s@) == "true"@ ==> r),
        raw matches Some(s) ==> (norm_key(s@) == "yes"@ ==> r),
        raw matches Some(s) ==> (norm_key(s@) == "on"@ ==> r),
        raw matches Some(s) ==> (norm_key(s@) == "0"@ ==> !r),
        raw matches Some(s) ==> (norm_key(s@) == "false"@ ==> !r),
        raw matches Some(s) ==> (norm_key(s@) == "no"@ ==> !r),
        raw matches Some(s) ==> (norm_key(s@) == "off"@ ==> !r),
        raw is None ==> r == default,
        raw matches Some(s) ==> (s@ == "1"@ ==> r),
        raw matches Some(s) ==> (s@ == "true"@ ==> r),
        raw matches Some(s) ==> (s@ == "yes"@ ==> r),
        raw matches Some(s) ==> (s@ == "on"@ ==> r),
        raw matches Some(s) ==> (s@ == "0"@ ==> !r),
        raw matches Some(s) ==> (s@ == "false"@ ==> !r),
        raw matches Some(s) ==> (s@ == "no"@ ==> !r),
        raw matches Some(s) ==> (s@ == "off"@ ==> !r),
{
    if let Some(s) = raw {
        proof {
            law_bool_spellings_override_default(s@, default);
        }
    }
    match raw {
        None => default,
        Some(s) => {
            let k = norm_key_of(s);
            let k = k.as_slice();
            if chars_eq_str(k, "1") || chars_eq_str(k, "true") || chars_eq_str(k, "yes")
                || chars_eq_str(k, "on") {
                true
            } else if chars_eq_str(k, "0") || chars_eq_str(k, "false") || chars_eq_str(k, "no")
                || chars_eq_str(k, "off") {
                false
            } else {
                default
            }
        },
    }
}

/// The fields, trimmed, that are not blank.
pub open spec fn kept_fields(fs: Seq<Seq<char>>) -> Seq<Seq<char>>
    decreases fs.len(),
{
    if fs.len() == 0 {
        Seq::empty()
    } else {
        let k = kept_fields(fs.drop_last());
        if trim(fs.last()).len() > 0 {
            k.push(trim(fs.last()))
        } else {
            k
        }
    }
}

/// What a list setting keeps is made of non-blank trimmed fields, no more
/// than there were; a list whose fields are all non-blank and trimmed is
/// kept whole.
pub proof fn law_kept_fields_are_trimmed(fs: Seq<Seq<char>>)
    ensures
        kept_fields(fs).len() <= fs.len(),
        forall|i: int| 0 <= i < kept_fields(fs).len() ==> (#[trigger] kept_fields(fs)[i]).len()
            > 0 && trim(kept_fields(fs)[i]) == kept_fields(fs)[i],
        (forall|j: int| 0 <= j < fs.len() ==> (#[trigger] fs[j]).len() > 0 && trim(fs[j]) == fs[j])
            ==> kept_fields(fs) == fs,
    decreases fs.len(),
{
    if fs.len() > 0 {
        let init = fs.drop_last();
        law_kept_fields_are_trimmed(init);
        crate::triggers::lemma_trim_idempotent(fs.last());
        if forall|j: int| 0 <= j < fs.len() ==> (#[trigger] fs[j]).len() > 0 && trim(fs[j]) == fs[j] {
            assert forall|j: int| 0 <= j < init.len() implies (#[trigger] init[j]).len() > 0 && trim(
                init[j],
            ) == init[j] by {
                assert(init[j] == fs[j]);
            }
            assert(fs.last() == fs[fs.len() - 1]);
            assert(init.push(fs.last()) =~= fs);
        }
    }
}

pub open spec fn texts(v: Seq<String>) -> Seq<Seq<char>> {
    v.map_values(|s: String| s@)
}

fn keep_field(out: &mut Vec<String>, field: &[char])
    ensures
        texts(final(out)@) == if trim(field@).len() > 0 {
            texts(old(out)@).push(trim(field@))
        } else {
            texts(old(out)@)
        },
{
    let t = trim_chars(field);
    if t.len() > 0 {
        let s = from_chars(t.as_slice());
        let ghost before = out@;
        out.push(s);
        proof {
            assert(texts(out@) =~= texts(before).push(trim(field@)));
        }
    }
}

/// The fields of `s` between separators, trimmed, leaving out blank ones.
pub fn kept_split(s: &str, sep: char) -> (r: Vec<String>)
    ensures
        texts(r@) == kept_fields(split_fields(s@, sep)),
{
    let mut out: Vec<String> = Vec::new();
    assert(texts(out@) =~= Seq::<Seq<char>>::empty());
    let c = to_chars(s);
    let fields = split_on(c.as_slice(), sep);
    let ghost fs = vecs_view(fields@);
    let mut i: usize = 0;
    while i < fields.len()
        invariant
            i <= fields@.len(),
            fs == vecs_view(fields@),
            fs == split_fields(s@, sep),
            texts(out@) == kept_fields(fs.take(i as int)),
        decreases fields.len() - i,
    {
        assert(fs.take(i + 1).drop_last() =~= fs.take(i as int));
        assert(fs.take(i + 1).last() == fields@[i as int]@);
        keep_field(&mut out, fields[i].as_slice());
        i = i + 1;
    }
    assert(fs.take(fs.len() as int) =~= fs);
    out
}

/// Reads a comma-separated list setting: the trimmed fields that are not
/// blank, in order.
pub fn split_csv_setting(raw: Option<&str>) -> (r: Vec<String>)
    ensures
        texts(r@) == match opt_text(raw) {
            Some(s) => kept_fields(split_fields(s, ',')),
            None => Seq::empty(),
        },
{
    match raw {
        None => {
            let out: Vec<String> = Vec::new();
            assert(texts(out@) =~= Seq::<Seq<char>>::empty());
            out
        },
        Some(s) => kept_split(s, ','),
    }
}

/// How the trusted-proxy shared secret was looked up.
#[derive(Debug)]
pub enum SecretResolution {
    /// Neither a secret nor a reference to one is configured.
    NotConfigured,
    /// The lookup gave this value (none when the reference held nothing).
    Resolved(Option<String>),
    /// The lookup failed with this message.
    Failed(String),
}

/// The trusted-proxy settings: whether the check is on (off by default),
/// the resolved secret trimmed (a blank one counting as none), and the
/// lookup's error.
pub fn default_trusted_proxy_auth_config_from_env(
    enabled_raw: Option<&str>,
    resolution: SecretResolution,
) -> (r: TrustedProxyConfig)
    ensures
        r.enabled == bool_setting(opt_text(enabled_raw), false),
        match resolution {
            SecretResolution::NotConfigured => r.secret is None && r.error is None,
            SecretResolution::Resolved(v) => r.error is None && match v {
                Some(s) => match r.secret {
                    Some(t) => trim_non_empty_spec(s@) == Some(t@),
                    None => trim_non_empty_spec(s@) is None,
                },
                None => r.secret is None,
            },
            SecretResolution::Failed(msg) => r.secret is None && (r.error matches Some(e) && e@
                == msg@),
        },
{
    let enabled = parse_bool_setting(enabled_raw, false);
    match resolution {
        SecretResolution::NotConfigured => TrustedProxyConfig { enabled, secret: None, error: None },
        SecretResolution::Resolved(v) => {
            let secret = match &v {
                Some(s) => trim_non_empty(Some(s.as_str())),
                None => None,
            };
            TrustedProxyConfig { enabled, secret, error: None }
        },
        SecretResolution::Failed(msg) => TrustedProxyConfig {
            enabled,
            secret: None,
            error: Some(msg),
        },
    }
}


/// The size limits of the agent-context loader.
#[derive(Debug)]
pub struct ContextLoaderLimits {
    pub max_file_bytes: usize,
    pub max_total_bytes: usize,
    pub max_dynamic_files_per_dir: usize,
}

pub open spec fn or_default_usize(o: Option<usize>, d: usize) -> usize {
    match o {
        Some(v) => v,
        None => d,
    }
}

/// The loader's limits: 64 KiB per file, 256 KiB in all, and 8 dynamic
/// files per directory, unless positive values are configured.
pub fn agent_context_loader_limits(
    max_file_bytes: Option<&str>,
    max_total_bytes: Option<&str>,
    max_dynamic_files_per_dir: Option<&str>,
) -> (r: ContextLoaderLimits)
    ensures
        r.max_file_bytes == or_default_usize(positive_usize_setting(opt_text(max_file_bytes)), 65536),
        r.max_total_bytes == or_default_usize(
            positive_usize_setting(opt_text(max_total_bytes)),
            262144,
        ),
        r.max_dynamic_files_per_dir == or_default_usize(
            positive_usize_setting(opt_text(max_dynamic_files_per_dir)),
            8,
        ),
        max_file_bytes is None ==> r.max_file_bytes == 65536,
        max_total_bytes is None ==> r.max_total_bytes == 262144,
        max_dynamic_files_per_dir is None ==> r.max_dynamic_files_per_dir == 8,
        r.max_file_bytes > 0 && r.max_total_bytes > 0 && r.max_dynamic_files_per_dir > 0,
{
    let f = match parse_positive_usize_setting(max_file_bytes) {
        Some(v) => v,
        None => 65536,
    };
    let t = match parse_positive_usize_setting(max_total_bytes) {
        Some(v) => v,
        None => 262144,
    };
    let d = match parse_positive_usize_setting(max_dynamic_files_per_dir) {
        Some(v) => v,
        None => 8,
    };
    ContextLoaderLimits { max_file_bytes: f, max_total_bytes: t, max_dynamic_files_per_dir: d }
}
} // verus!
