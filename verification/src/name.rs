//! Service names: which are valid, and how one is made up.

use vstd::prelude::*;
use vstd::string::*;
use vstd::utf8::*;

use crate::model::{Registry, RegistryView, ServiceView};
use crate::path::{file_name, path_file_name};
use crate::registry::{find_from, lemma_find_from, name_among, sound, targets};
use crate::text::{
    all_digits, char_is_digit, char_is_letter, chars_of, decimal, drop_while, is_digit, is_letter,
    lemma_decimal_injective, lemma_drop_while, lemma_skip_while, only, skip_while, text_all_digits,
    text_between, trim_matching, wide_decimal_text,
};

verus! {

/// The characters of a valid name: ASCII letters, digits, `-` and `_`.
pub open spec fn name_char(c: char) -> bool {
    is_letter(c) || is_digit(c) || c == '-' || c == '_'
}

/// Every character of `s` may stand in a valid name.
pub open spec fn all_name_chars(s: Seq<char>) -> bool {
    forall|i: int| 0 <= i < s.len() ==> name_char(#[trigger] s[i])
}

/// Why a name is refused, where it is.
pub open spec fn name_fault(name: Seq<char>) -> Option<Seq<char>> {
    if name.len() == 0 {
        Some("service name cannot be empty"@)
    } else if encode_utf8(name).len() > 64 {
        Some("service name cannot be longer than 64 characters"@)
    } else if all_digits(name) {
        Some("service name cannot be all digits — it would clash with numeric IDs"@)
    } else if !all_name_chars(name) {
        Some(
            "service name '"@ + name
                + "' is invalid — only letters, numbers, '-' and '_' are allowed"@,
        )
    } else {
        None
    }
}

/// Whether `c` may stand in a valid name.
fn is_name_char(c: char) -> (r: bool)
    ensures
        r == name_char(c),
{
    char_is_letter(c) || char_is_digit(c) || c == '-' || c == '_'
}

/// Whether every character of `s` may stand in a valid name.
fn has_only_name_chars(s: &str) -> (r: bool)
    ensures
        r == all_name_chars(s@),
{
    let x = chars_of(s);
    let mut i: usize = 0;
    while i < x.len()
        invariant
            x@ == s@,
            i <= x@.len(),
            forall|k: int| 0 <= k < i ==> name_char(#[trigger] s@[k]),
        decreases x@.len() - i,
    {
        if !is_name_char(x[i]) {
            return false;
        }
        i = i + 1;
    }
    true
}

/// Accept a name of 1 to 64 characters out of `[A-Za-z0-9_-]` that is not all
/// digits, and say why any other is refused.
pub fn validate_name(name: &str) -> (r: Result<(), String>)
    ensures
        match r {
            Ok(()) => name_fault(name@) is None,
            Err(e) => name_fault(name@) == Some(e@),
        },
{
    if name.is_empty() {
        return Err("service name cannot be empty".to_owned());
    }
    if name.as_bytes().len() > 64 {
        return Err("service name cannot be longer than 64 characters".to_owned());
    }
    if text_all_digits(name) {
        return Err(
            "service name cannot be all digits — it would clash with numeric IDs".to_owned(),
        );
    }
    if !has_only_name_chars(name) {
        let mut e = "service name '".to_owned();
        e.append(name);
        e.append("' is invalid — only letters, numbers, '-' and '_' are allowed");
        return Err(e);
    }
    Ok(())
}

/// `s` with `-` in place of every character that may not stand in a name.
pub open spec fn dashed(s: Seq<char>) -> Seq<char> {
    Seq::new(
        s.len(),
        |i: int|
            if name_char(s[i]) {
                s[i]
            } else {
                '-'
            },
    )
}

/// `s` with `-` in place of every character that may not stand in a name.
pub fn dash_sanitize(s: &str) -> (r: String)
    ensures
        r@ == dashed(s@),
{
    let x = chars_of(s);
    let mut out = String::new();
    let mut i: usize = 0;
    while i < x.len()
        invariant
            x@ == s@,
            i <= x@.len(),
            out@ == dashed(s@).take(i as int),
        decreases x@.len() - i,
    {
        let c = x[i];
        if is_name_char(c) {
            out.push(c);
        } else {
            out.push('-');
        }
        assert(dashed(s@).take(i + 1) =~= dashed(s@).take(i as int).push(dashed(s@)[i as int]));
        i = i + 1;
    }
    assert(dashed(s@).take(s@.len() as int) =~= dashed(s@));
    out
}

/// The default name for a directory.
pub open spec fn generated(dir: Seq<char>, sep: u8) -> Seq<char> {
    let base = match file_name(dir, sep) {
        Some(n) => trim_matching(dashed(n), only('-')),
        None => Seq::empty(),
    };
    if base.len() == 0 {
        "service"@
    } else {
        base
    }
}

/// The default name for a directory: its final component, with `-` in place of
/// what may not stand in a name and without the `-` at either end; `service` where
/// nothing is left.
pub fn generate_name(dir: &str, sep: u8) -> (r: String)
    ensures
        r@ == generated(dir@, sep),
{
    if let Some(n) = path_file_name(dir, sep) {
        let base = dash_sanitize(n.as_str());
        let x = chars_of(base.as_str());
        let mut a: usize = 0;
        while a < x.len() && x[a] == '-'
            invariant
                x@ == base@,
                a <= x@.len(),
                skip_while(base@, only('-'), 0) == skip_while(base@, only('-'), a as int),
            decreases x@.len() - a,
        {
            a = a + 1;
        }
        let mut b: usize = x.len();
        while a < b && x[b - 1] == '-'
            invariant
                x@ == base@,
                a <= b <= x@.len(),
                drop_while(base@, only('-'), a as int, x@.len() as int) == drop_while(
                    base@,
                    only('-'),
                    a as int,
                    b as int,
                ),
            decreases b - a,
        {
            b = b - 1;
        }
        if a < b {
            return text_between(&x, a, b);
        }
    }
    "service".to_owned()
}

/// The names to be tried for `base`, from the first on: `base`, `base-2`,
/// `base-3`, and so on.
pub open spec fn candidate(base: Seq<char>, n: nat) -> Seq<char> {
    if n <= 1 {
        base
    } else {
        base + "-"@ + decimal(n)
    }
}

/// The `n`th name to be tried for `base`.
fn candidate_text(base: &str, n: u128) -> (r: String)
    requires
        n >= 1,
    ensures
        r@ == candidate(base@, n as nat),
{
    let mut out = base.to_owned();
    if n > 1 {
        out.append("-");
        out.append(wide_decimal_text(n).as_str());
    }
    out
}

/// Different tries are different names.
proof fn lemma_candidates_differ(base: Seq<char>, m: nat, n: nat)
    requires
        1 <= m < n,
    ensures
        candidate(base, m) != candidate(base, n),
{
    let rest = "-"@ + decimal(n);
    assert(candidate(base, n) =~= base + rest);
    reveal_strlit("-");
    assert("-"@.len() == 1);
    if m == 1 {
        assert(candidate(base, n).len() > base.len());
    } else {
        assert(candidate(base, m) =~= base + "-"@ + decimal(m));
        if candidate(base, m) == candidate(base, n) {
            let a = candidate(base, m);
            let b = candidate(base, n);
            let k = base.len() as int + 1;
            assert(a.subrange(k, a.len() as int) =~= decimal(m));
            assert(b.subrange(k, b.len() as int) =~= decimal(n));
            lemma_decimal_injective(m, n);
        }
    }
}

/// Of one more tries than there are services, one is free.
proof fn lemma_some_candidate_is_free(s: Seq<ServiceView>, base: Seq<char>, n: nat)
    requires
        forall|k: nat| 1 <= k <= n ==> name_among(s, s.len() as int, #[trigger] candidate(base, k)),
    ensures
        n <= s.len(),
{
    let tried = Seq::new(n, |i: int| candidate(base, (i + 1) as nat));
    let names = Seq::new(s.len(), |i: int| s[i].name);
    assert(tried.no_duplicates()) by {
        assert forall|i: int, j: int|
            0 <= i < tried.len() && 0 <= j < tried.len() && i != j implies tried[i] != tried[j] by {
            if i < j {
                lemma_candidates_differ(base, (i + 1) as nat, (j + 1) as nat);
            } else {
                lemma_candidates_differ(base, (j + 1) as nat, (i + 1) as nat);
            }
        }
    }
    assert(tried.to_set().subset_of(names.to_set())) by {
        assert forall|x: Seq<char>| tried.to_set().contains(x) implies names.to_set().contains(
            x,
        ) by {
            let i = choose|i: int| 0 <= i < tried.len() && tried[i] == x;
            assert(name_among(s, s.len() as int, candidate(base, (i + 1) as nat)));
            let j = choose|j: int| 0 <= j < s.len() && (#[trigger] s[j]).name == x;
            assert(names[j] == x);
        }
    }
    tried.unique_seq_to_set();
    names.lemma_cardinality_of_set();
    vstd::set_lib::lemma_len_subset(tried.to_set(), names.to_set());
}

/// The `n`th try for `base` is the first that no service has.
pub open spec fn first_free(s: Seq<ServiceView>, base: Seq<char>, n: nat) -> bool {
    &&& n >= 1
    &&& !name_among(s, s.len() as int, candidate(base, n))
    &&& forall|k: nat| 1 <= k < n ==> name_among(s, s.len() as int, #[trigger] candidate(base, k))
}

/// A name that no service of the registry has: `base`, else `base-2`, else
/// `base-3`, and so on.
pub fn unique_name(registry: &Registry, base: &str) -> (r: String)
    ensures
        exists|n: nat|
            first_free(registry@.services, base@, n) && r@ == #[trigger] candidate(base@, n),
        !name_among(registry@.services, registry@.services.len() as int, r@),
{
    let mut n: u128 = 1;
    loop
        invariant
            1 <= n <= registry.services.len() + 1,
            forall|k: nat|
                1 <= k < n ==> name_among(
                    registry@.services,
                    registry@.services.len() as int,
                    #[trigger] candidate(base@, k),
                ),
        decreases registry.services.len() + 1 - n,
    {
        let c = candidate_text(base, n);
        if !registry.name_exists(c.as_str()) {
            assert(first_free(registry@.services, base@, n as nat));
            return c;
        }
        proof {
            lemma_some_candidate_is_free(registry@.services, base@, n as nat);
        }
        n = n + 1;
    }
}

// ---------------------------------------------------------------------------
// Laws
// ---------------------------------------------------------------------------

/// A generated name is never empty and is made of characters that may stand in a
/// name, so it is a single safe path segment.
pub proof fn law_generated_name_is_one_segment(dir: Seq<char>, sep: u8)
    ensures
        generated(dir, sep).len() > 0,
        all_name_chars(generated(dir, sep)),
        !generated(dir, sep).contains('/'),
        !generated(dir, sep).contains('\\'),
{
    match file_name(dir, sep) {
        Some(n) => {
            let d = dashed(n);
            let a = skip_while(d, only('-'), 0);
            lemma_skip_while(d, only('-'), 0);
            lemma_drop_while(d, only('-'), a, d.len() as int);
            let t = trim_matching(d, only('-'));
            assert forall|i: int| 0 <= i < t.len() implies name_char(#[trigger] t[i]) by {
                assert(t[i] == d[a + i]);
            }
        },
        None => {},
    }
    reveal_strlit("service");
    let g = generated(dir, sep);
    assert(all_name_chars("service"@));
    assert(all_name_chars(g));
    if g.contains('/') {
        let i = choose|i: int| 0 <= i < g.len() && g[i] == '/';
        assert(name_char(g[i]));
    }
    if g.contains('\\') {
        let i = choose|i: int| 0 <= i < g.len() && g[i] == '\\';
        assert(name_char(g[i]));
    }
}

/// A valid name is never taken for an id: as a target it names exactly the
/// services that have it.
pub proof fn law_valid_name_is_no_id(name: Seq<char>, s: ServiceView)
    requires
        name_fault(name) is None,
    ensures
        targets(name, s) <==> s.name == name,
{
}

/// A service with a valid name is found under its name in a sound registry.
pub proof fn law_valid_name_finds_its_service(r: RegistryView, i: int)
    requires
        sound(r),
        0 <= i < r.services.len(),
        name_fault(r.services[i].name) is None,
    ensures
        find_from(r.services, r.services[i].name, 0) == i,
{
    let name = r.services[i].name;
    lemma_find_from(r.services, name, 0);
    let k = find_from(r.services, name, 0);
    assert(targets(name, r.services[i]));
    if k < i {
        assert(r.services[k].name == r.services[i].name);
    }
}

/// The character may stand in a name: a letter or a digit of ASCII, a dash or an
/// underscore.
pub open spec fn plain_char(c: char) -> bool {
    'a' <= c <= 'z' || 'A' <= c <= 'Z' || '0' <= c <= '9' || c == '-' || c == '_'
}

/// Both say the same of a character.
proof fn lemma_plain_char(c: char)
    ensures
        name_char(c) <==> plain_char(c),
        name_char(c) ==> '\0' <= c <= '\u{7f}',
        is_digit(c) <==> '0' <= c <= '9',
{
}

/// A name is accepted exactly where it has 1 to 64 characters, all of them plain, and
/// not only digits.
pub proof fn law_names_are_valid_exactly(name: Seq<char>)
    ensures
        name_fault(name) is None <==> 1 <= name.len() <= 64 && (forall|i: int|
            0 <= i < name.len() ==> plain_char(#[trigger] name[i])) && (exists|i: int|
            0 <= i < name.len() && !('0' <= #[trigger] name[i] <= '9')),
{
    assert forall|i: int| 0 <= i < name.len() implies (name_char(#[trigger] name[i]) <==> plain_char(
        name[i],
    )) && (is_digit(name[i]) <==> '0' <= name[i] <= '9') by {
        lemma_plain_char(name[i]);
    }
    if forall|i: int| 0 <= i < name.len() ==> name_char(#[trigger] name[i]) {
        assert(is_ascii_chars(name)) by {
            assert forall|i: int| 0 <= i < name.len() implies '\0' <= #[trigger] name[i]
                <= '\u{7f}' by {
                lemma_plain_char(name[i]);
            }
        }
        is_ascii_chars_encode_utf8(name);
    }
    if name_fault(name) is None {
        let i = choose|i: int| 0 <= i < name.len() && !is_digit(#[trigger] name[i]);
        assert(!('0' <= name[i] <= '9'));
        assert(all_name_chars(name));
    }
    if 1 <= name.len() <= 64 && (forall|i: int|
        0 <= i < name.len() ==> plain_char(#[trigger] name[i])) && (exists|i: int|
        0 <= i < name.len() && !('0' <= #[trigger] name[i] <= '9')) {
        let i = choose|i: int| 0 <= i < name.len() && !('0' <= #[trigger] name[i] <= '9');
        assert(!is_digit(name[i]));
        assert(all_name_chars(name));
    }
}

/// Whoever is refused is told why: a name that is empty, too long, all digits, or holds
/// what may not stand in one.
pub proof fn law_refused_names_are_told_why(name: Seq<char>)
    ensures
        name.len() == 0 ==> name_fault(name) == Some("service name cannot be empty"@),
        name.len() > 0 && encode_utf8(name).len() > 64 ==> name_fault(name) == Some(
            "service name cannot be longer than 64 characters"@,
        ),
        0 < name.len() && encode_utf8(name).len() <= 64 && (forall|i: int|
            0 <= i < name.len() ==> is_digit(#[trigger] name[i])) ==> name_fault(name) == Some(
            "service name cannot be all digits — it would clash with numeric IDs"@,
        ),
        0 < name.len() && encode_utf8(name).len() <= 64 && (exists|i: int|
            0 <= i < name.len() && !name_char(#[trigger] name[i])) && (exists|i: int|
            0 <= i < name.len() && !is_digit(#[trigger] name[i])) ==> name_fault(name) == Some(
            "service name '"@ + name
                + "' is invalid — only letters, numbers, '-' and '_' are allowed"@,
        ),
{
}

/// Only what may not stand in a name becomes a dash; everything else stays where it is.
pub proof fn law_only_foreign_characters_become_dashes(s: Seq<char>, i: int)
    requires
        0 <= i < s.len(),
    ensures
        dashed(s).len() == s.len(),
        plain_char(s[i]) ==> dashed(s)[i] == s[i],
        !plain_char(s[i]) ==> dashed(s)[i] == '-',
{
    lemma_plain_char(s[i]);
}

/// The default name of a directory is its final component, with dashes for what may not
/// stand in a name, less the dashes at either end; where that leaves nothing, it is
/// `service`.
pub proof fn law_generated_name_is_that_of_the_directory(dir: Seq<char>, sep: u8)
    ensures
        file_name(dir, sep) is None ==> generated(dir, sep) == "service"@,
        file_name(dir, sep) matches Some(n) ==> {
            ||| generated(dir, sep) == "service"@ && forall|k: int|
                0 <= k < n.len() ==> #[trigger] dashed(n)[k] == '-'
            ||| exists|a: int, b: int|
                0 <= a < b <= n.len() && generated(dir, sep) == #[trigger] dashed(n).subrange(a, b)
                    && dashed(n)[a] != '-' && dashed(n)[b - 1] != '-' && (forall|k: int|
                    0 <= k < a || b <= k < n.len() ==> #[trigger] dashed(n)[k] == '-')
        },
{
    if let Some(n) = file_name(dir, sep) {
        let d = dashed(n);
        let p = only('-');
        lemma_skip_while(d, p, 0);
        let a = skip_while(d, p, 0);
        lemma_drop_while(d, p, a, d.len() as int);
        let b = drop_while(d, p, a, d.len() as int);
        assert forall|k: int| 0 <= k < a || b <= k < n.len() implies #[trigger] d[k] == '-' by {
            assert(p(d[k]));
        }
        if a < b {
            assert(!p(d[a]));
            assert(!p(d[b - 1]));
            assert(generated(dir, sep) == d.subrange(a, b));
        }
    }
}

} // verus!
