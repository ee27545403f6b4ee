//! The decisions of `ccline update`: which release is newer, which asset to
//! fetch for this platform, and where it lives.

use vstd::prelude::*;

use crate::text::{
    chars_of, decimal, find_last, is_digit, is_digit_char, last_occurrence, lemma_decimal_digits,
    lemma_parse_decimal, lemma_split_on_concat, parse_u64, parse_u64_chars, push_str, split_chars,
    split_on, str_eq, string_of, sub_chars, trim, trim_chars, views,
};

verus! {

/// The `k`-th dot-separated part of a version, read as a number; a part
/// that is missing or not a number counts as 0.
pub open spec fn version_part(v: Seq<char>, k: int) -> u64 {
    let parts = split_on(v, '.');
    if k < parts.len() {
        match parse_u64(parts[k]) {
            Some(n) => n,
            None => 0,
        }
    } else {
        0
    }
}

/// `"1.2.10"` -> `(1, 2, 10)`.
pub open spec fn version_key(v: Seq<char>) -> (u64, u64, u64) {
    (version_part(v, 0), version_part(v, 1), version_part(v, 2))
}

/// Lexicographic `<=` on version keys (the order of tuples).
pub open spec fn key_le(a: (u64, u64, u64), b: (u64, u64, u64)) -> bool {
    a.0 < b.0 || (a.0 == b.0 && (a.1 < b.1 || (a.1 == b.1 && a.2 <= b.2)))
}

/// "1.2.10" -> (1, 2, 10), for ordered version comparison.
pub fn ver_key(v: &str) -> (r: (u64, u64, u64))
    ensures
        r == version_key(v@),
{
    let cv = chars_of(v);
    let parts = split_chars(&cv, '.');
    let ghost pv = views(parts@);
    let mut key: [u64; 3] = [0, 0, 0];
    let mut k: usize = 0;
    while k < 3
        invariant
            k <= 3,
            pv == views(parts@),
            pv == split_on(v@, '.'),
            forall|j: int| 0 <= j < k ==> key@[j] == version_part(v@, j),
        decreases 3 - k,
    {
        if k < parts.len() {
            let n = match parse_u64_chars(&parts[k]) {
                Some(n) => n,
                None => 0,
            };
            key[k] = n;
        } else {
            key[k] = 0;
        }
        k = k + 1;
    }
    (key[0], key[1], key[2])
}

/// Whether a release whose version is `latest` replaces the running
/// `current` one: only a strictly greater version key does.
pub fn is_newer(latest: &str, current: &str) -> (r: bool)
    ensures
        r == !key_le(version_key(latest@), version_key(current@)),
        ({
            let (l, c) = (version_key(latest@), version_key(current@));
            &&& l.0 > c.0 ==> r
            &&& l.0 < c.0 ==> !r
            &&& l.0 == c.0 && l.1 > c.1 ==> r
            &&& l.0 == c.0 && l.1 < c.1 ==> !r
            &&& l.0 == c.0 && l.1 == c.1 ==> (r <==> l.2 > c.2)
        }),
{
    let a = ver_key(latest);
    let b = ver_key(current);
    !(a.0 < b.0 || (a.0 == b.0 && (a.1 < b.1 || (a.1 == b.1 && a.2 <= b.2))))
}

/// The text after the last `/tag/v` (all of it when there is none).
pub open spec fn after_last_tag(t: Seq<char>) -> Seq<char> {
    match last_occurrence(t, "/tag/v"@) {
        Some(i) => t.skip(i + "/tag/v"@.len()),
        None => t,
    }
}

/// The latest version named by the URL that `/releases/latest` redirects
/// to: the part after the last `/tag/v` of the trimmed URL, accepted only
/// when it starts with a digit.
pub open spec fn latest_version_of(url: Seq<char>) -> Option<Seq<char>> {
    let v = after_last_tag(trim(url));
    if v.len() > 0 && is_digit(v[0]) {
        Some(v)
    } else {
        None
    }
}

/// The latest version out of the effective URL of the release redirect.
pub fn latest_version(effective_url: &str) -> (r: Option<String>)
    ensures
        match r {
            Some(s) => latest_version_of(effective_url@) == Some(s@),
            None => latest_version_of(effective_url@) is None,
        },
{
    let cv = chars_of(effective_url);
    let t = trim_chars(&cv);
    let tag = chars_of("/tag/v");
    let n = t.len();
    let v = match find_last(&t, &tag) {
        Some(i) => {
            let v = sub_chars(&t, i + tag.len(), n);
            assert(v@ =~= t@.skip(i + tag@.len()));
            v
        },
        None => {
            let v = sub_chars(&t, 0, n);
            assert(v@ =~= t@);
            v
        },
    };
    if v.len() > 0 && is_digit_char(v[0]) {
        Some(string_of(&v))
    } else {
        None
    }
}

/// The release asset target for an operating system and architecture
/// (the values of `std::env::consts::OS` and `ARCH`).
pub open spec fn release_target_of(os: Seq<char>, arch: Seq<char>) -> Option<Seq<char>> {
    if os == "linux"@ && arch == "x86_64"@ {
        Some("x86_64-unknown-linux-musl"@)
    } else if os == "linux"@ && arch == "aarch64"@ {
        Some("aarch64-unknown-linux-musl"@)
    } else if os == "macos"@ && arch == "x86_64"@ {
        Some("x86_64-apple-darwin"@)
    } else if os == "macos"@ && arch == "aarch64"@ {
        Some("aarch64-apple-darwin"@)
    } else if os == "windows"@ && arch == "x86_64"@ {
        Some("x86_64-pc-windows-msvc"@)
    } else {
        None
    }
}

/// Release asset target triple for a platform, matching the CI matrix.
pub fn release_target(os: &str, arch: &str) -> (r: Option<&'static str>)
    ensures
        match r {
            Some(t) => release_target_of(os@, arch@) == Some(t@),
            None => release_target_of(os@, arch@) is None,
        },
{
    if str_eq(os, "linux") && str_eq(arch, "x86_64") {
        Some("x86_64-unknown-linux-musl")
    } else if str_eq(os, "linux") && str_eq(arch, "aarch64") {
        Some("aarch64-unknown-linux-musl")
    } else if str_eq(os, "macos") && str_eq(arch, "x86_64") {
        Some("x86_64-apple-darwin")
    } else if str_eq(os, "macos") && str_eq(arch, "aarch64") {
        Some("aarch64-apple-darwin")
    } else if str_eq(os, "windows") && str_eq(arch, "x86_64") {
        Some("x86_64-pc-windows-msvc")
    } else {
        None
    }
}

/// The archive format of the release assets: zip on Windows, gzip'd tar elsewhere.
pub fn archive_extension(windows: bool) -> (r: &'static str)
    ensures
        r@ == (if windows {
            "zip"@
        } else {
            "tar.gz"@
        }),
{
    if windows {
        "zip"
    } else {
        "tar.gz"
    }
}

/// The name of the executable inside a release archive.
pub fn binary_name(windows: bool) -> (r: &'static str)
    ensures
        r@ == (if windows {
            "ccline.exe"@
        } else {
            "ccline"@
        }),
{
    if windows {
        "ccline.exe"
    } else {
        "ccline"
    }
}

/// The page that redirects to the latest release.
pub fn latest_release_url() -> (r: String)
    ensures
        r@ == "https://github.com/eng1n88r/ccline/releases/latest"@,
{
    let mut r = String::new();
    push_str(&mut r, "https://github.com/eng1n88r/ccline/releases/latest");
    assert(r@ =~= "https://github.com/eng1n88r/ccline/releases/latest"@);
    r
}

/// The download URL of the release archive for `target`.
pub fn release_asset_url(target: &str, windows: bool) -> (r: String)
    ensures
        r@ == "https://github.com/eng1n88r/ccline/releases/latest/download/ccline-"@ + target@
            + "."@ + (if windows {
            "zip"@
        } else {
            "tar.gz"@
        }),
{
    let mut r = String::new();
    push_str(&mut r, "https://github.com/eng1n88r/ccline/releases/latest/download/ccline-");
    push_str(&mut r, target);
    push_str(&mut r, ".");
    push_str(&mut r, archive_extension(windows));
    assert(r@ =~= "https://github.com/eng1n88r/ccline/releases/latest/download/ccline-"@
        + target@ + "."@ + (if windows {
        "zip"@
    } else {
        "tar.gz"@
    }));
    r
}

/// Text without a `sep` is a single piece.
pub proof fn lemma_split_on_single(s: Seq<char>, sep: char)
    requires
        forall|i: int| 0 <= i < s.len() ==> s[i] != sep,
    ensures
        split_on(s, sep) == seq![s],
    decreases s.len(),
{
    if s.len() == 0 {
        assert(s =~= Seq::<char>::empty());
        assert(split_on(s, sep) =~= seq![s]);
    } else {
        let t = s.drop_last();
        assert forall|i: int| 0 <= i < t.len() implies t[i] != sep by {
            assert(t[i] == s[i]);
        }
        lemma_split_on_single(t, sep);
        assert(s.last() != sep);
        let prev = split_on(t, sep);
        assert(prev.last() == t);
        assert(t.push(s.last()) =~= s);
        assert(prev.update(prev.len() - 1, prev.last().push(s.last())) =~= seq![s]);
        assert(split_on(s, sep) =~= seq![s]);
    }
}

/// A version written as `a.b.c` in decimal reads back as the key `(a, b, c)`.
pub proof fn law_version_key_roundtrip(a: u64, b: u64, c: u64)
    ensures
        version_key(decimal(a as nat) + seq!['.'] + decimal(b as nat) + seq!['.'] + decimal(
            c as nat,
        )) == (a, b, c),
{
    let da = decimal(a as nat);
    let db = decimal(b as nat);
    let dc = decimal(c as nat);
    lemma_decimal_digits(a as nat);
    lemma_decimal_digits(b as nat);
    lemma_decimal_digits(c as nat);
    lemma_parse_decimal(a as nat, u64::MAX as nat);
    lemma_parse_decimal(b as nat, u64::MAX as nat);
    lemma_parse_decimal(c as nat, u64::MAX as nat);
    assert forall|i: int| 0 <= i < da.len() implies da[i] != '.' by {
        assert(is_digit(da[i]));
    }
    assert forall|i: int| 0 <= i < db.len() implies db[i] != '.' by {
        assert(is_digit(db[i]));
    }
    assert forall|i: int| 0 <= i < dc.len() implies dc[i] != '.' by {
        assert(is_digit(dc[i]));
    }
    lemma_split_on_single(da, '.');
    lemma_split_on_single(db, '.');
    lemma_split_on_single(dc, '.');
    let x = da + seq!['.'];
    let y = db + seq!['.'];
    assert(x.drop_last() =~= da);
    assert(y.drop_last() =~= db);
    assert(split_on(x, '.') =~= seq![da, Seq::<char>::empty()]);
    assert(split_on(y, '.') =~= seq![db, Seq::<char>::empty()]);
    lemma_split_on_concat(y, dc, '.');
    assert(split_on(y + dc, '.') =~= seq![db, dc]);
    lemma_split_on_concat(x, y + dc, '.');
    assert(split_on(x + (y + dc), '.') =~= seq![da, db, dc]);
    assert(da + seq!['.'] + db + seq!['.'] + dc =~= x + (y + dc));
}


/// Version keys are totally ordered: the order is reflexive, total,
/// antisymmetric and transitive.
pub proof fn law_version_order_is_total(a: (u64, u64, u64), b: (u64, u64, u64), c: (
    u64,
    u64,
    u64,
))
    ensures
        key_le(a, a),
        key_le(a, b) || key_le(b, a),
        key_le(a, b) && key_le(b, a) ==> a == b,
        key_le(a, b) && key_le(b, c) ==> key_le(a, c),
{
}

/// The order goes by major, then minor, then patch: a greater major or,
/// with equal majors, a greater minor is newer whatever the later parts are.
pub proof fn law_version_order_by_parts(a: (u64, u64, u64), b: (u64, u64, u64))
    ensures
        a.0 < b.0 ==> key_le(a, b) && !key_le(b, a),
        a.0 == b.0 && a.1 < b.1 ==> key_le(a, b) && !key_le(b, a),
        a.0 == b.0 && a.1 == b.1 ==> (key_le(a, b) <==> a.2 <= b.2),
{
}

/// Of two versions, exactly one is newer, or their keys are equal.
pub proof fn law_newer_trichotomy(x: Seq<char>, y: Seq<char>)
    ensures
        (!key_le(version_key(x), version_key(y))) as int + (!key_le(version_key(y), version_key(
            x,
        ))) as int + (version_key(x) == version_key(y)) as int == 1,
{
}

/// A release `a.b2.c2` is newer than a running `a.b1.c1` when `b2 > b1`,
/// whatever the patch numbers.
pub proof fn law_minor_bump_is_newer(a: u64, b1: u64, c1: u64, b2: u64, c2: u64)
    requires
        b1 < b2,
    ensures
        !key_le(
            version_key(decimal(a as nat) + seq!['.'] + decimal(b2 as nat) + seq!['.'] + decimal(
                c2 as nat,
            )),
            version_key(decimal(a as nat) + seq!['.'] + decimal(b1 as nat) + seq!['.'] + decimal(
                c1 as nat,
            )),
        ),
{
    law_version_key_roundtrip(a, b1, c1);
    law_version_key_roundtrip(a, b2, c2);
}

} // verus!
