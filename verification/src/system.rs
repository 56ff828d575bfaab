use vstd::prelude::*;
use vstd::string::*;
use crate::text::{chars_of, dec_digits, is_digit, push_chars, push_dec, push_str, string_of, sub_chars, trim, trim_chars};

verus! {

// ---------------------------------------------------------------------------
// The macOS version
// ---------------------------------------------------------------------------

/// The value of a string of decimal digits.
pub open spec fn digits_value(d: Seq<char>) -> nat
    decreases d.len(),
{
    if d.len() == 0 {
        0
    } else {
        digits_value(d.drop_last()) * 10 + (d.last() as u32 - '0' as u32) as nat
    }
}

/// `s` without one leading `+`.
pub open spec fn unsigned_part(s: Seq<char>) -> Seq<char> {
    if s.len() > 0 && s[0] == '+' { s.skip(1) } else { s }
}

/// Every character of `d` is a decimal digit.
pub open spec fn all_digits(d: Seq<char>) -> bool {
    forall|i: int| 0 <= i < d.len() ==> is_digit(#[trigger] d[i])
}

/// What `str::parse::<u32>` gives: an optional `+`, then one or more decimal
/// digits whose value fits in 32 bits.
pub open spec fn parse_u32(s: Seq<char>) -> Option<u32> {
    let d = unsigned_part(s);
    if d.len() > 0 && all_digits(d) && digits_value(d) <= u32::MAX {
        Some(digits_value(d) as u32)
    } else {
        None
    }
}

/// `str::parse::<u32>`.
pub fn parse_u32_chars(s: &Vec<char>) -> (r: Option<u32>)
    ensures
        r == parse_u32(s@),
{
    let start: usize = if s.len() > 0 && s[0] == '+' { 1 } else { 0 };
    let d = sub_chars(s, start, s.len());
    assert(d@ =~= unsigned_part(s@));
    if d.len() == 0 {
        return None;
    }
    let mut v: u64 = 0;
    let mut i: usize = 0;
    while i < d.len()
        invariant
            i <= d@.len(),
            d@ == unsigned_part(s@),
            forall|k: int| 0 <= k < i ==> is_digit(#[trigger] d@[k]),
            v <= 0x1_0000_0000,
            v <= u32::MAX ==> v == digits_value(d@.take(i as int)),
            v == 0x1_0000_0000 ==> digits_value(d@.take(i as int)) > u32::MAX,
        decreases d.len() - i,
    {
        let c = d[i];
        if !('0' <= c && c <= '9') {
            assert(!is_digit(d@[i as int]));
            return None;
        }
        assert(d@.take(i + 1).drop_last() =~= d@.take(i as int));
        let digit = (c as u32 - '0' as u32) as u64;
        if v <= 0xffff_ffff {
            let next = v * 10 + digit;
            v = if next > 0xffff_ffff { 0x1_0000_0000 } else { next };
        }
        i = i + 1;
    }
    assert(d@.take(d@.len() as int) =~= d@);
    if v > 0xffff_ffff {
        None
    } else {
        Some(v as u32)
    }
}

/// The index of the first `.` in `s`, if any.
pub open spec fn first_dot(s: Seq<char>) -> Option<int>
    decreases s.len(),
{
    if s.len() == 0 {
        None
    } else if s[0] == '.' {
        Some(0)
    } else {
        match first_dot(s.drop_first()) {
            Some(i) => Some(i + 1),
            None => None,
        }
    }
}

/// The first field of `s` split at `.`.
pub open spec fn first_field(s: Seq<char>) -> Seq<char> {
    match first_dot(s) {
        Some(i) => s.subrange(0, i),
        None => s,
    }
}

/// The second field of `s` split at `.`, if there is one.
pub open spec fn second_field(s: Seq<char>) -> Option<Seq<char>> {
    match first_dot(s) {
        Some(i) => Some(first_field(s.skip(i + 1))),
        None => None,
    }
}

/// The `(major, minor)` version in the output of `sw_vers -productVersion`:
/// the trimmed text split at dots, the first field a positive number, the
/// second a number too or else taken as 0.
pub open spec fn macos_version_of(output: Seq<char>) -> Option<(u32, u32)> {
    let v = trim(output);
    match parse_u32(first_field(v)) {
        None => None,
        Some(major) => {
            let minor = match second_field(v) {
                Some(f) => match parse_u32(f) {
                    Some(m) => m,
                    None => 0,
                },
                None => 0,
            };
            if major > 0 {
                Some((major, minor))
            } else {
                None
            }
        },
    }
}

fn find_first_dot(v: &Vec<char>, from: usize) -> (r: Option<usize>)
    requires
        from <= v@.len(),
    ensures
        match r {
            Some(i) => from <= i < v@.len() && first_dot(v@.skip(from as int)) == Some(i - from),
            None => first_dot(v@.skip(from as int)) is None,
        },
{
    let mut k: usize = v.len();
    let mut found: Option<usize> = None;
    // scan backwards so that the dot found last is the first one
    while k > from
        invariant
            from <= k <= v@.len(),
            match found {
                Some(i) => k <= i < v@.len() && first_dot(v@.skip(k as int)) == Some(i - k),
                None => first_dot(v@.skip(k as int)) is None,
            },
        decreases k - from,
    {
        let ghost t = v@.skip(k - 1);
        assert(t.drop_first() =~= v@.skip(k as int));
        assert(t[0] == v@[k - 1]);
        if v[k - 1] == '.' {
            found = Some(k - 1);
        }
        k = k - 1;
    }
    found
}

/// Reads the `(major, minor)` macOS version from the output of
/// `sw_vers -productVersion`.
pub fn macos_version(output: &str) -> (r: Option<(u32, u32)>)
    ensures
        r == macos_version_of(output@),
{
    let raw = chars_of(output);
    let v = trim_chars(&raw);
    let dot = find_first_dot(&v, 0);
    assert(v@.skip(0) =~= v@);
    let first = match dot {
        Some(i) => sub_chars(&v, 0, i),
        None => sub_chars(&v, 0, v.len()),
    };
    assert(first@ =~= first_field(v@));
    let major = match parse_u32_chars(&first) {
        None => return None,
        Some(m) => m,
    };
    let minor = match dot {
        None => 0,
        Some(i) => {
            let next = find_first_dot(&v, i + 1);
            let f = match next {
                Some(j) => sub_chars(&v, i + 1, j),
                None => sub_chars(&v, i + 1, v.len()),
            };
            assert(f@ =~= first_field(v@.skip(i + 1)));
            match parse_u32_chars(&f) {
                Some(m) => m,
                None => 0,
            }
        },
    };
    if major > 0 {
        Some((major, minor))
    } else {
        None
    }
}

// ---------------------------------------------------------------------------
// User agents
// ---------------------------------------------------------------------------

/// The Chrome user agent the built-in messengers present.
pub fn chrome_user_agent() -> (r: &'static str)
    ensures
        r@ == "Mozilla/5.0 (Macintosh; Intel Mac OS X 10_15_7) AppleWebKit/537.36 (KHTML, like Gecko) Chrome/124.0.0.0 Safari/537.36"@,
{
    "Mozilla/5.0 (Macintosh; Intel Mac OS X 10_15_7) AppleWebKit/537.36 (KHTML, like Gecko) Chrome/124.0.0.0 Safari/537.36"
}

/// The Safari version that ships with a macOS version: three majors ahead up
/// to macOS 15, the same number from macOS 26 on.
pub open spec fn safari_major(major: u32) -> nat {
    if major >= 26 {
        major as nat
    } else {
        (major + 3) as nat
    }
}

/// The Safari user agent the custom webviews present, built from the running
/// macOS version; without one it claims no Safari version at all.
pub open spec fn safari_user_agent_spec(version: Option<(u32, u32)>) -> Seq<char> {
    match version {
        None => "Mozilla/5.0 (Macintosh; Intel Mac OS X 10_15_7) AppleWebKit/605.1.15 (KHTML, like Gecko)"@,
        Some((major, minor)) => "Mozilla/5.0 (Macintosh; Intel Mac OS X 10_15_7) AppleWebKit/605.1.15 (KHTML, like Gecko) Version/"@
            + dec_digits(safari_major(major)) + "."@ + dec_digits(minor as nat) + " Safari/605.1.15"@,
    }
}

pub fn safari_user_agent(version: Option<(u32, u32)>) -> (r: String)
    ensures
        r@ == safari_user_agent_spec(version),
{
    match version {
        None => String::from_str("Mozilla/5.0 (Macintosh; Intel Mac OS X 10_15_7) AppleWebKit/605.1.15 (KHTML, like Gecko)"),
        Some((major, minor)) => {
            let sm: u64 = if major >= 26 { major as u64 } else { major as u64 + 3 };
            let mut v: Vec<char> = Vec::new();
            push_str(&mut v, "Mozilla/5.0 (Macintosh; Intel Mac OS X 10_15_7) AppleWebKit/605.1.15 (KHTML, like Gecko) Version/");
            push_dec(&mut v, sm);
            push_str(&mut v, ".");
            push_dec(&mut v, minor as u64);
            push_str(&mut v, " Safari/605.1.15");
            string_of(&v)
        },
    }
}

// ---------------------------------------------------------------------------
// The minimum macOS version
// ---------------------------------------------------------------------------

/// The oldest macOS major version the app runs on.
pub open spec fn min_macos_major() -> u32 {
    14
}

/// The app refuses to start on a macOS older than 14; a version that could not
/// be read does not block startup.
pub fn macos_too_old(version: Option<(u32, u32)>) -> (r: bool)
    ensures
        r == (match version {
            Some((major, _)) => major < min_macos_major(),
            None => false,
        }),
{
    match version {
        Some((major, _)) => major < 14,
        None => false,
    }
}

/// An AppleScript string literal's body: backslashes doubled, quotes escaped.
pub open spec fn applescript_escape(s: Seq<char>) -> Seq<char>
    decreases s.len(),
{
    if s.len() == 0 {
        s
    } else {
        applescript_escape(s.drop_last()) + (if s.last() == '\\' {
            seq!['\\', '\\']
        } else if s.last() == '"' {
            seq!['\\', '"']
        } else {
            seq![s.last()]
        })
    }
}

fn push_quoted(out: &mut Vec<char>, s: &Vec<char>)
    ensures
        final(out)@ == old(out)@ + seq!['"'] + applescript_escape(s@) + seq!['"'],
{
    let ghost start = old(out)@;
    out.push('"');
    for i in 0..s.len()
        invariant
            out@ == start + seq!['"'] + applescript_escape(s@.take(i as int)),
    {
        let c = s[i];
        let ghost before = out@;
        if c == '\\' {
            out.push('\\');
            out.push('\\');
        } else if c == '"' {
            out.push('\\');
            out.push('"');
        } else {
            out.push(c);
        }
        assert(s@.take(i + 1).drop_last() =~= s@.take(i as int));
        assert(out@ =~= start + seq!['"'] + applescript_escape(s@.take(i + 1)));
    }
    assert(s@.take(s.len() as int) =~= s@);
    out.push('"');
}

/// The lines of the message shown on a too old macOS.
pub open spec fn version_message_lines(major: u32, minor: u32) -> Seq<Seq<char>> {
    seq![
        "Signalist потребує macOS 14 Sonoma або новіше."@,
        "Ваша версія: macOS "@ + dec_digits(major as nat) + "."@ + dec_digits(minor as nat),
        "Оновіть систему через System Settings → General → Software Update, щоб застосунок працював коректно."@,
    ]
}

/// The AppleScript that shows the message: each line quoted, separated by
/// blank lines, in a caution dialog with one OK button.
pub open spec fn version_dialog_script_spec(major: u32, minor: u32) -> Seq<char> {
    let l = version_message_lines(major, minor);
    "display dialog "@ + seq!['"'] + applescript_escape(l[0]) + seq!['"'] + " & return & return "@ + seq!['"'] + applescript_escape(l[1])
        + seq!['"'] + " & return & return "@ + seq!['"'] + applescript_escape(l[2]) + seq!['"']
        + " buttons {\"OK\"} default button \"OK\" with icon caution with title \"Signalist\""@
}

pub fn version_dialog_script(major: u32, minor: u32) -> (r: String)
    ensures
        r@ == version_dialog_script_spec(major, minor),
{
    let l0 = chars_of("Signalist потребує macOS 14 Sonoma або новіше.");
    let mut l1: Vec<char> = Vec::new();
    push_str(&mut l1, "Ваша версія: macOS ");
    push_dec(&mut l1, major as u64);
    push_str(&mut l1, ".");
    push_dec(&mut l1, minor as u64);
    let l2 = chars_of("Оновіть систему через System Settings → General → Software Update, щоб застосунок працював коректно.");
    let mut out: Vec<char> = Vec::new();
    push_str(&mut out, "display dialog ");
    push_quoted(&mut out, &l0);
    push_str(&mut out, " & return & return ");
    push_quoted(&mut out, &l1);
    push_str(&mut out, " & return & return ");
    push_quoted(&mut out, &l2);
    push_str(&mut out, " buttons {\"OK\"} default button \"OK\" with icon caution with title \"Signalist\"");
    proof {
        let l = version_message_lines(major, minor);
        assert(l[0] == l0@);
        assert(l[1] == l1@);
        assert(l[2] == l2@);
    }
    assert(out@ =~= version_dialog_script_spec(major, minor));
    string_of(&out)
}

// ---------------------------------------------------------------------------
// The log file
// ---------------------------------------------------------------------------

/// The lines of a text as `str::lines` gives them: split at `\n`, a `\r`
/// before it dropped, no empty line after a final `\n`.
pub open spec fn text_lines(s: Seq<char>) -> Seq<Seq<char>>
    decreases s.len(),
{
    if s.len() == 0 {
        Seq::empty()
    } else {
        match first_newline(s) {
            None => seq![s],
            Some(i) => {
                proof {
                    lemma_first_newline_range(s);
                }
                let line = if i > 0 && s[i - 1] == '\r' { s.subrange(0, i - 1) } else { s.subrange(0, i) };
                seq![line] + text_lines(s.skip(i + 1))
            },
        }
    }
}

/// The index of the first `\n` in `s`, if any.
pub open spec fn first_newline(s: Seq<char>) -> Option<int>
    decreases s.len(),
{
    if s.len() == 0 {
        None
    } else if s[0] == '\n' {
        Some(0)
    } else {
        match first_newline(s.drop_first()) {
            Some(i) => Some(i + 1),
            None => None,
        }
    }
}

/// `lines` joined with `\n` between them.
pub open spec fn join_lines(lines: Seq<Seq<char>>) -> Seq<char>
    decreases lines.len(),
{
    if lines.len() == 0 {
        Seq::empty()
    } else if lines.len() == 1 {
        lines[0]
    } else {
        join_lines(lines.drop_last()) + seq!['\n'] + lines.last()
    }
}

/// The last `n` lines of a text (all of them when it has fewer), joined with `\n`.
pub open spec fn tail_spec(content: Seq<char>, n: nat) -> Seq<char> {
    let l = text_lines(content);
    let start = if l.len() > n { l.len() - n } else { 0 };
    join_lines(l.skip(start))
}

pub proof fn lemma_first_newline_range(s: Seq<char>)
    ensures
        first_newline(s) matches Some(i) ==> 0 <= i < s.len() && s[i] == '\n'
            && forall|k: int| 0 <= k < i ==> s[k] != '\n',
        first_newline(s) is None ==> forall|k: int| 0 <= k < s.len() ==> s[k] != '\n',
    decreases s.len(),
{
    if s.len() > 0 {
        lemma_first_newline_range(s.drop_first());
        if first_newline(s) is None {
            assert forall|k: int| 0 <= k < s.len() implies s[k] != '\n' by {
                if k > 0 {
                    assert(s.drop_first()[k - 1] == s[k]);
                }
            }
        }
        if let Some(i) = first_newline(s) {
            if i > 0 {
                assert forall|k: int| 0 <= k < i implies s[k] != '\n' by {
                    if k > 0 {
                        assert(s.drop_first()[k - 1] == s[k]);
                    }
                }
            }
        }
    }
}

proof fn lemma_first_newline_at(s: Seq<char>, i: int)
    requires
        0 <= i < s.len(),
        s[i] == '\n',
        forall|k: int| 0 <= k < i ==> s[k] != '\n',
    ensures
        first_newline(s) == Some(i),
    decreases i,
{
    if i > 0 {
        lemma_first_newline_at(s.drop_first(), i - 1);
    }
}

proof fn lemma_no_newline(s: Seq<char>)
    requires
        forall|k: int| 0 <= k < s.len() ==> s[k] != '\n',
    ensures
        first_newline(s) is None,
    decreases s.len(),
{
    if s.len() > 0 {
        lemma_no_newline(s.drop_first());
    }
}

/// The lines of a text, as `str::lines` gives them.
pub fn split_lines(content: &Vec<char>) -> (r: Vec<Vec<char>>)
    ensures
        r@.map_values(|l: Vec<char>| l@) == text_lines(content@),
{
    let mut r: Vec<Vec<char>> = Vec::new();
    let mut pos: usize = 0;
    let n = content.len();
    assert(content@.skip(0) =~= content@);
    while pos < n
        invariant
            pos <= n,
            n == content@.len(),
            text_lines(content@) == r@.map_values(|l: Vec<char>| l@) + text_lines(content@.skip(pos as int)),
        decreases n - pos,
    {
        let ghost rest = content@.skip(pos as int);
        let mut j = pos;
        while j < n && content[j] != '\n'
            invariant
                pos <= j <= n,
                n == content@.len(),
                forall|k: int| pos <= k < j ==> content@[k] != '\n',
            decreases n - j,
        {
            j = j + 1;
        }
        let ghost before = r@.map_values(|l: Vec<char>| l@);
        if j == n {
            proof {
                assert forall|k: int| 0 <= k < rest.len() implies rest[k] != '\n' by {
                    assert(rest[k] == content@[pos + k]);
                }
                lemma_no_newline(rest);
            }
            let line = sub_chars(content, pos, n);
            assert(line@ =~= rest);
            r.push(line);
            assert(r@.map_values(|l: Vec<char>| l@) =~= before.push(rest));
            pos = n;
            assert(content@.skip(pos as int) =~= Seq::<char>::empty());
            assert(text_lines(content@) =~= r@.map_values(|l: Vec<char>| l@) + text_lines(content@.skip(pos as int)));
        } else {
            let i = j - pos;
            proof {
                assert forall|k: int| 0 <= k < i implies rest[k] != '\n' by {
                    assert(rest[k] == content@[pos + k]);
                }
                assert(rest[i as int] == '\n');
                lemma_first_newline_at(rest, i as int);
            }
            let end = if j > pos && content[j - 1] == '\r' { j - 1 } else { j };
            let line = sub_chars(content, pos, end);
            proof {
                let expected = if i > 0 && rest[i - 1] == '\r' { rest.subrange(0, i - 1) } else { rest.subrange(0, i as int) };
                if j > pos {
                    assert(rest[i - 1] == content@[j - 1]);
                }
                assert(line@ =~= expected);
                assert(rest.skip(i + 1) =~= content@.skip(j + 1));
            }
            r.push(line);
            assert(r@.map_values(|l: Vec<char>| l@) =~= before.push(line@));
            pos = j + 1;
            assert(before + text_lines(rest) =~= r@.map_values(|l: Vec<char>| l@) + text_lines(content@.skip(pos as int)));
        }
    }
    assert(content@.skip(n as int) =~= Seq::<char>::empty());
    assert(r@.map_values(|l: Vec<char>| l@) + text_lines(Seq::<char>::empty()) =~= r@.map_values(|l: Vec<char>| l@));
    r
}

/// The last `lines` lines of the log, joined with `\n`.
pub fn tail_lines(content: &str, lines: u32) -> (r: String)
    ensures
        r@ == tail_spec(content@, lines as nat),
{
    let chars = chars_of(content);
    let all = split_lines(&chars);
    let ghost lv = all@.map_values(|l: Vec<char>| l@);
    let start: usize = if all.len() > lines as usize { all.len() - lines as usize } else { 0 };
    let mut out: Vec<char> = Vec::new();
    let mut i = start;
    while i < all.len()
        invariant
            start <= i <= all@.len(),
            lv == all@.map_values(|l: Vec<char>| l@),
            out@ == join_lines(lv.subrange(start as int, i as int)),
        decreases all.len() - i,
    {
        let ghost before = out@;
        if i > start {
            out.push('\n');
        }
        push_chars(&mut out, &all[i]);
        proof {
            let s = lv.subrange(start as int, i + 1);
            assert(s.drop_last() =~= lv.subrange(start as int, i as int));
            assert(s.last() == all@[i as int]@);
            if i == start {
                assert(s.len() == 1);
                assert(out@ =~= s[0]);
            } else {
                assert(out@ =~= join_lines(s.drop_last()) + seq!['\n'] + s.last());
            }
        }
        i = i + 1;
    }
    assert(lv.subrange(start as int, all@.len() as int) =~= lv.skip(start as int));
    string_of(&out)
}

} // verus!
