use vstd::prelude::*;
use vstd::string::*;
use crate::text::{
    ascii_lower, chars_of, is_hex_digit, is_unicode_whitespace, lower_chars, string_of, to_ascii_lower, trim, trim_chars, trim_end,
    trim_start,
};
use crate::urls::{opt_view, url_parse, entry_url_outcome, validate_entry_url};

verus! {

broadcast use vstd::seq_lib::group_seq_properties;

// ---------------------------------------------------------------------------
// Colors
// ---------------------------------------------------------------------------

/// `#rrggbb`: seven characters, `#` and six hexadecimal digits.
pub open spec fn is_hex6_color(v: Seq<char>) -> bool {
    &&& v.len() == 7
    &&& v[0] == '#'
    &&& forall|i: int| 1 <= i < 7 ==> is_hex_digit(#[trigger] v[i])
}

/// The tint an entry keeps for a requested color: none for no color or blank
/// input, the trimmed lower-case value for `#rrggbb`, and an error naming the
/// input for anything else.
pub open spec fn color_outcome(color: Option<Seq<char>>) -> Result<Option<Seq<char>>, Seq<char>> {
    match color {
        None => Ok(None),
        Some(raw) => {
            let value = to_ascii_lower(trim(raw));
            if value.len() == 0 {
                Ok(None)
            } else if is_hex6_color(value) {
                Ok(Some(value))
            } else {
                Err("Invalid color: "@ + raw + " (expected #rrggbb)"@)
            }
        },
    }
}

/// The view of an optional-string outcome.
pub open spec fn opt_outcome_view(r: Result<Option<String>, String>) -> Result<Option<Seq<char>>, Seq<char>> {
    match r {
        Ok(v) => Ok(opt_view(v)),
        Err(e) => Err(e@),
    }
}

/// Accepts only `#rrggbb` (the value is bound straight into a CSS `color`
/// property); blank input means "no custom color".
pub fn normalize_color(color: Option<String>) -> (r: Result<Option<String>, String>)
    ensures
        opt_outcome_view(r) == color_outcome(opt_view(color)),
{
    let raw = match color {
        None => return Ok(None),
        Some(raw) => raw,
    };
    let chars = chars_of(raw.as_str());
    let trimmed = trim_chars(&chars);
    let value = lower_chars(&trimmed);
    if value.len() == 0 {
        return Ok(None);
    }
    let mut ok = value.len() == 7 && value[0] == '#';
    if ok {
        let mut i: usize = 1;
        while i < 7
            invariant
                1 <= i <= 7,
                value@.len() == 7,
                ok ==> forall|k: int| 1 <= k < i ==> is_hex_digit(#[trigger] value@[k]),
                !ok ==> !is_hex6_color(value@),
            decreases 7 - i,
        {
            let c = value[i];
            if !(('0' <= c && c <= '9') || ('a' <= c && c <= 'f') || ('A' <= c && c <= 'F')) {
                ok = false;
            }
            i = i + 1;
        }
    }
    if ok {
        Ok(Some(string_of(&value)))
    } else {
        let mut m = String::from_str("Invalid color: ");
        m.append(raw.as_str());
        m.append(" (expected #rrggbb)");
        Err(m)
    }
}


// ---------------------------------------------------------------------------
// Web shortcuts
// ---------------------------------------------------------------------------

/// A web page the user pinned to the sidebar.
pub struct CustomShortcut {
    pub id: String,
    pub name: String,
    pub url: String,
    pub icon: Option<String>,
    /// Tint applied to the sidebar icon, as `#rrggbb`. `None` follows the theme accent.
    pub color: Option<String>,
}

/// What a shortcut holds, as text.
pub struct ShortcutView {
    pub id: Seq<char>,
    pub name: Seq<char>,
    pub url: Seq<char>,
    pub icon: Option<Seq<char>>,
    pub color: Option<Seq<char>>,
}

impl View for CustomShortcut {
    type V = ShortcutView;

    open spec fn view(&self) -> ShortcutView {
        ShortcutView {
            id: self.id@,
            name: self.name@,
            url: self.url@,
            icon: opt_view(self.icon),
            color: opt_view(self.color),
        }
    }
}

pub fn clone_opt_string(s: &Option<String>) -> (r: Option<String>)
    ensures
        opt_view(r) == opt_view(*s),
{
    match s {
        Some(v) => Some(v.clone()),
        None => None,
    }
}

impl CustomShortcut {
    /// A copy with the same contents.
    pub fn duplicate(&self) -> (r: CustomShortcut)
        ensures
            r@ == self@,
    {
        CustomShortcut {
            id: self.id.clone(),
            name: self.name.clone(),
            url: self.url.clone(),
            icon: clone_opt_string(&self.icon),
            color: clone_opt_string(&self.color),
        }
    }

    /// The label of the webview that shows this shortcut.
    pub fn webview_label(&self) -> (r: String)
        ensures
            r@ == crate::ids::webview_label_of(self.id@),
    {
        crate::ids::custom_webview_label(self.id.as_str())
    }
}

/// The contents of a list of shortcuts.
pub open spec fn shortcuts_view(v: Seq<CustomShortcut>) -> Seq<ShortcutView> {
    v.map_values(|s: CustomShortcut| s@)
}

/// The ids of a list of shortcuts, in order.
pub open spec fn shortcut_ids(v: Seq<ShortcutView>) -> Seq<Seq<char>> {
    v.map_values(|s: ShortcutView| s.id)
}

/// Holds a shortcut with this id.
pub open spec fn has_shortcut_id(x: Seq<char>) -> spec_fn(ShortcutView) -> bool {
    |s: ShortcutView| s.id == x
}

/// Holds a shortcut with another id.
pub open spec fn lacks_shortcut_id(x: Seq<char>) -> spec_fn(ShortcutView) -> bool {
    |s: ShortcutView| s.id != x
}

/// The shortcuts of the sidebar, in the order the sidebar and the tray show them.
pub struct CustomShortcuts(pub Vec<CustomShortcut>);

impl View for CustomShortcuts {
    type V = Seq<ShortcutView>;

    open spec fn view(&self) -> Seq<ShortcutView> {
        shortcuts_view(self.0@)
    }
}

pub fn duplicate_shortcuts(v: &Vec<CustomShortcut>) -> (r: Vec<CustomShortcut>)
    ensures
        shortcuts_view(r@) == shortcuts_view(v@),
{
    let mut r: Vec<CustomShortcut> = Vec::new();
    for i in 0..v.len()
        invariant
            shortcuts_view(r@) == shortcuts_view(v@.take(i as int)),
    {
        r.push(v[i].duplicate());
        assert(shortcuts_view(v@.take(i + 1)) =~= shortcuts_view(v@.take(i as int)).push(v@[i as int]@));
    }
    assert(v@.take(v.len() as int) =~= v@);
    r
}

impl CustomShortcuts {
    /// A copy of the list, as the sidebar asks for it.
    pub fn list(&self) -> (r: Vec<CustomShortcut>)
        ensures
            shortcuts_view(r@) == self@,
    {
        duplicate_shortcuts(&self.0)
    }

    /// Drops every shortcut with this id; the others keep their order.
    pub fn remove_id(&mut self, id: &str)
        ensures
            final(self)@ == old(self)@.filter(lacks_shortcut_id(id@)),
    {
        let mut kept: Vec<CustomShortcut> = Vec::new();
        let n = self.0.len();
        let mut i: usize = 0;
        while i < n
            invariant
                i <= n,
                n == self.0.len(),
                self@ == old(self)@,
                shortcuts_view(kept@) == shortcuts_view(self.0@.take(i as int)).filter(lacks_shortcut_id(id@)),
            decreases n - i,
        {
            let keep = !crate::text::str_eq(self.0[i].id.as_str(), id);
            proof {
                assert(shortcuts_view(self.0@.take(i + 1)) =~= shortcuts_view(self.0@.take(i as int)).push(self.0@[i as int]@));
                shortcuts_view(self.0@.take(i as int)).lemma_filter_push(self.0@[i as int]@, lacks_shortcut_id(id@));
            }
            let ghost before = kept@;
            if keep {
                kept.push(self.0[i].duplicate());
                assert(shortcuts_view(kept@) =~= shortcuts_view(before).push(self.0@[i as int]@));
            }
            i = i + 1;
        }
        assert(self.0@.take(n as int) =~= self.0@);
        self.0 = kept;
    }
}


// ---------------------------------------------------------------------------
// Reordering
// ---------------------------------------------------------------------------

/// Equal to `x`.
pub open spec fn equals<A>(x: A) -> spec_fn(A) -> bool {
    |y: A| y == x
}

/// The text of a list of strings.
pub open spec fn strings_view(v: Seq<String>) -> Seq<Seq<char>> {
    v.map_values(|s: String| s@)
}

/// A reorder request names every shortcut exactly once: as many ids as
/// shortcuts, and each id as often as the shortcuts carry it.
pub open spec fn reorder_accepted(current: Seq<ShortcutView>, ids: Seq<Seq<char>>) -> bool {
    ids.len() == current.len() && ids.to_multiset() == shortcut_ids(current).to_multiset()
}

/// The id at `k` is one too many: counting up to and including `k`, the request
/// names it more often than the shortcuts carry it (unknown, or duplicated).
pub open spec fn id_overdrawn(current: Seq<ShortcutView>, ids: Seq<Seq<char>>, k: int) -> bool {
    ids.take(k + 1).to_multiset().count(ids[k]) > shortcut_ids(current).to_multiset().count(ids[k])
}

/// `reordered` is the list the request asks for: it carries the requested ids in
/// the requested order, and shortcuts that share an id keep their relative order.
pub open spec fn is_reordering(current: Seq<ShortcutView>, ids: Seq<Seq<char>>, reordered: Seq<ShortcutView>) -> bool {
    &&& shortcut_ids(reordered) == ids
    &&& forall|x: Seq<char>| #[trigger] reordered.filter(has_shortcut_id(x)) == current.filter(has_shortcut_id(x))
}

pub proof fn lemma_count_as_filter<A>(s: Seq<A>, x: A)
    ensures
        s.to_multiset().count(x) == s.filter(equals(x)).len(),
    decreases s.len(),
{
    broadcast use vstd::multiset::group_multiset_axioms;

    reveal(Seq::filter);
    if s.len() == 0 {
        vstd::seq_lib::to_multiset_len(s);
        assert(s.to_multiset() =~= vstd::multiset::Multiset::empty());
    } else {
        let t = s.drop_last();
        lemma_count_as_filter(t, x);
        assert(s =~= t.push(s.last()));
        vstd::seq_lib::to_multiset_build(t, s.last());
        t.lemma_filter_push(s.last(), equals(x));
    }
}

proof fn lemma_ids_filter_len(s: Seq<ShortcutView>, x: Seq<char>)
    ensures
        shortcut_ids(s).filter(equals(x)).len() == s.filter(has_shortcut_id(x)).len(),
    decreases s.len(),
{
    reveal(Seq::filter);
    if s.len() > 0 {
        let t = s.drop_last();
        lemma_ids_filter_len(t, x);
        assert(s =~= t.push(s.last()));
        assert(shortcut_ids(s) =~= shortcut_ids(t).push(s.last().id));
        t.lemma_filter_push(s.last(), has_shortcut_id(x));
        shortcut_ids(t).lemma_filter_push(s.last().id, equals(x));
    }
}

proof fn lemma_filter_take_le<A>(s: Seq<A>, m: int, p: spec_fn(A) -> bool)
    requires
        0 <= m <= s.len(),
    ensures
        s.take(m).filter(p).len() <= s.filter(p).len(),
{
    assert(s =~= s.take(m) + s.skip(m));
    Seq::filter_distributes_over_add(s.take(m), s.skip(m), p);
}

proof fn lemma_filter_none<A>(s: Seq<A>, p: spec_fn(A) -> bool)
    requires
        forall|k: int| 0 <= k < s.len() ==> !p(#[trigger] s[k]),
    ensures
        s.filter(p) == Seq::<A>::empty(),
    decreases s.len(),
{
    reveal(Seq::filter);
    if s.len() > 0 {
        lemma_filter_none(s.drop_last(), p);
    }
}

/// The message for a request that does not name every shortcut once.
pub open spec fn reorder_error(current: Seq<ShortcutView>, ids: Seq<Seq<char>>, k: int) -> Seq<char> {
    if ids.len() != current.len() {
        "Expected "@ + crate::text::dec_digits(current.len()) + " ids, got "@ + crate::text::dec_digits(ids.len())
    } else {
        "Unknown or duplicated shortcut id: "@ + ids[k]
    }
}

impl CustomShortcuts {
    /// Puts the shortcuts in the order of `ids`. Only an exact permutation is
    /// accepted: a missing or duplicated id would drop a shortcut and orphan its
    /// webview and data store. A refused request leaves the list as it was and
    /// names the first id that cannot be placed.
    pub fn reorder(&mut self, ids: &Vec<String>) -> (r: Result<Vec<CustomShortcut>, String>)
        ensures
            r is Ok <==> reorder_accepted(old(self)@, strings_view(ids@)),
            r matches Ok(v) ==> {
                &&& final(self)@ == shortcuts_view(v@)
                &&& is_reordering(old(self)@, strings_view(ids@), shortcuts_view(v@))
            },
            r matches Err(e) ==> {
                &&& final(self)@ == old(self)@
                &&& (ids@.len() != old(self)@.len() ==> e@ == reorder_error(old(self)@, strings_view(ids@), 0))
                &&& (ids@.len() == old(self)@.len() ==> exists|k: int| {
                    &&& 0 <= k < ids@.len()
                    &&& id_overdrawn(old(self)@, strings_view(ids@), k)
                    &&& forall|j: int| 0 <= j < k ==> !id_overdrawn(old(self)@, strings_view(ids@), j)
                    &&& e@ == reorder_error(old(self)@, strings_view(ids@), k)
                })
            },
    {
        let ghost cur = self@;
        let ghost want = strings_view(ids@);
        if ids.len() != self.0.len() {
            let mut m: Vec<char> = Vec::new();
            crate::text::push_str(&mut m, "Expected ");
            crate::text::push_dec(&mut m, self.0.len() as u64);
            crate::text::push_str(&mut m, " ids, got ");
            crate::text::push_dec(&mut m, ids.len() as u64);
            return Err(string_of(&m));
        }
        let n = ids.len();
        let mut remaining = duplicate_shortcuts(&self.0);
        let mut picked: Vec<CustomShortcut> = Vec::new();
        let mut i: usize = 0;
        while i < n
            invariant
                i <= n,
                n == ids@.len(),
                n == cur.len(),
                self@ == cur,
                cur == old(self)@,
                want == strings_view(ids@),
                picked@.len() == i,
                shortcuts_view(picked@).len() + shortcuts_view(remaining@).len() == cur.len(),
                shortcut_ids(shortcuts_view(picked@)) == want.take(i as int),
                forall|x: Seq<char>|
                    shortcuts_view(picked@).filter(has_shortcut_id(x)) + shortcuts_view(remaining@).filter(has_shortcut_id(x))
                        == #[trigger] cur.filter(has_shortcut_id(x)),
                forall|j: int| 0 <= j < i ==> !id_overdrawn(cur, want, j),
            decreases n - i,
        {
            let ghost p = shortcuts_view(picked@);
            let ghost rv = shortcuts_view(remaining@);
            let ghost x = want[i as int];
            let mut pos: usize = 0;
            while pos < remaining.len() && !crate::text::str_eq(remaining[pos].id.as_str(), ids[i].as_str())
                invariant
                    pos <= remaining@.len(),
                    i < n,
                    n == ids@.len(),
                    want == strings_view(ids@),
                    x == want[i as int],
                    rv == shortcuts_view(remaining@),
                    forall|k: int| 0 <= k < pos ==> (#[trigger] rv[k]).id != x,
                decreases remaining.len() - pos,
            {
                pos = pos + 1;
            }
            proof {
                lemma_count_as_filter(want.take(i + 1), x);
                lemma_count_as_filter(want.take(i as int), x);
                lemma_count_as_filter(shortcut_ids(cur), x);
                lemma_ids_filter_len(cur, x);
                lemma_ids_filter_len(p, x);
                assert(want.take(i + 1) =~= want.take(i as int).push(x));
                want.take(i as int).lemma_filter_push(x, equals(x));
            }
            if pos == remaining.len() {
                proof {
                    lemma_filter_none(rv, has_shortcut_id(x));
                    assert(rv.filter(has_shortcut_id(x)) =~= Seq::<ShortcutView>::empty());
                    assert(p.filter(has_shortcut_id(x)) + rv.filter(has_shortcut_id(x)) == cur.filter(has_shortcut_id(x)));
                    assert(p.filter(has_shortcut_id(x)) =~= cur.filter(has_shortcut_id(x)));
                    assert(id_overdrawn(cur, want, i as int));
                    assert(ids@.len() == old(self)@.len());
                    lemma_count_as_filter(want, x);
                    lemma_filter_take_le(want, i + 1, equals(x));
                    assert(want.to_multiset().count(x) != shortcut_ids(cur).to_multiset().count(x));
                }
                let mut m: Vec<char> = Vec::new();
                crate::text::push_str(&mut m, "Unknown or duplicated shortcut id: ");
                crate::text::push_str(&mut m, ids[i].as_str());
                return Err(string_of(&m));
            }
            let e = remaining.remove(pos);
            proof {
                let ev = e@;
                assert(ev == rv[pos as int]);
                assert(ev.id == x);
                let rv2 = shortcuts_view(remaining@);
                assert(rv2 =~= rv.subrange(0, pos as int) + rv.subrange(pos + 1, rv.len() as int));
                assert(rv =~= rv.subrange(0, pos as int) + seq![ev] + rv.subrange(pos + 1, rv.len() as int));
                assert forall|y: Seq<char>| #[trigger] rv.filter(has_shortcut_id(y)) == (if y == x {
                    seq![ev] + rv2.filter(has_shortcut_id(y))
                } else {
                    rv2.filter(has_shortcut_id(y))
                }) by {
                    let a = rv.subrange(0, pos as int);
                    let b = rv.subrange(pos + 1, rv.len() as int);
                    Seq::filter_distributes_over_add(a + seq![ev], b, has_shortcut_id(y));
                    Seq::filter_distributes_over_add(a, seq![ev], has_shortcut_id(y));
                    Seq::filter_distributes_over_add(a, b, has_shortcut_id(y));
                    reveal_with_fuel(Seq::filter, 2);
                    assert(seq![ev].drop_last() =~= Seq::<ShortcutView>::empty());
                    if y == x {
                        assert forall|k: int| 0 <= k < a.len() implies !has_shortcut_id(y)(#[trigger] a[k]) by {
                            assert(a[k] == rv[k]);
                        }
                        lemma_filter_none(a, has_shortcut_id(y));
                        assert(seq![ev].filter(has_shortcut_id(y)) =~= seq![ev]);
                    } else {
                        assert(seq![ev].filter(has_shortcut_id(y)) =~= Seq::<ShortcutView>::empty());
                    }
                }
                assert(rv.filter(has_shortcut_id(x)).len() >= 1);
            }
            picked.push(e);
            proof {
                let p2 = shortcuts_view(picked@);
                assert(p2 =~= p.push(e@));
                assert(shortcut_ids(p2) =~= want.take(i + 1));
                let rv2 = shortcuts_view(remaining@);
                assert forall|y: Seq<char>|
                    p2.filter(has_shortcut_id(y)) + rv2.filter(has_shortcut_id(y)) == #[trigger] cur.filter(has_shortcut_id(y)) by {
                    p.lemma_filter_push(e@, has_shortcut_id(y));
                    assert(p.filter(has_shortcut_id(y)) + rv.filter(has_shortcut_id(y)) == cur.filter(has_shortcut_id(y)));
                    if y == x {
                        assert(p2.filter(has_shortcut_id(y)) + rv2.filter(has_shortcut_id(y)) =~= p.filter(has_shortcut_id(y)) + (seq![e@] + rv2.filter(has_shortcut_id(y))));
                    }
                }
                assert(!id_overdrawn(cur, want, i as int));
            }
            i = i + 1;
        }
        proof {
            let p = shortcuts_view(picked@);
            let rv = shortcuts_view(remaining@);
            assert(rv.len() == 0);
            assert forall|y: Seq<char>| #[trigger] p.filter(has_shortcut_id(y)) == cur.filter(has_shortcut_id(y)) by {
                reveal(Seq::filter);
                assert(rv.filter(has_shortcut_id(y)) =~= Seq::<ShortcutView>::empty());
                assert(p.filter(has_shortcut_id(y)) + rv.filter(has_shortcut_id(y)) == cur.filter(has_shortcut_id(y)));
                assert(p.filter(has_shortcut_id(y)) + rv.filter(has_shortcut_id(y)) =~= p.filter(has_shortcut_id(y)));
            }
            assert(want.take(n as int) =~= want);
            assert forall|y: Seq<char>| want.to_multiset().count(y) == shortcut_ids(cur).to_multiset().count(y) by {
                lemma_count_as_filter(want, y);
                lemma_count_as_filter(shortcut_ids(cur), y);
                lemma_ids_filter_len(cur, y);
                lemma_ids_filter_len(p, y);
                assert(p.filter(has_shortcut_id(y)) == cur.filter(has_shortcut_id(y)));
            }
            assert(want.to_multiset() =~= shortcut_ids(cur).to_multiset());
        }
        let result = duplicate_shortcuts(&picked);
        self.0 = picked;
        Ok(result)
    }
}


// ---------------------------------------------------------------------------
// Adding and editing shortcuts
// ---------------------------------------------------------------------------

/// What a shortcut is refused with when it points at Google.
pub open spec fn shortcut_google_message() -> Seq<char> {
    "Google services (Gemini, Google, YouTube) are not supported in the embedded window due to Google's policy"@
}

/// The checks a shortcut's URL and color go through, in order: the URL must
/// parse, have a host, and not be Google's; then the color must be blank or
/// `#rrggbb`. On success, the color to store.
pub open spec fn shortcut_fields_outcome(url: Seq<char>, color: Option<Seq<char>>) -> Result<Option<Seq<char>>, Seq<char>> {
    match entry_url_outcome(url_parse(url), shortcut_google_message()) {
        Err(e) => Err(e),
        Ok(_) => color_outcome(color),
    }
}

fn check_shortcut_fields(url: &str, color: Option<String>) -> (r: Result<Option<String>, String>)
    ensures
        opt_outcome_view(r) == shortcut_fields_outcome(url@, opt_view(color)),
{
    match validate_entry_url(url, "Google services (Gemini, Google, YouTube) are not supported in the embedded window due to Google's policy") {
        Err(e) => Err(e),
        Ok(_) => normalize_color(color),
    }
}

/// The index of the first shortcut with this id.
pub open spec fn is_first_with_id(v: Seq<ShortcutView>, id: Seq<char>, k: int) -> bool {
    &&& 0 <= k < v.len()
    &&& v[k].id == id
    &&& forall|j: int| 0 <= j < k ==> v[j].id != id
}

/// Where the first shortcut with this id stands, if any does.
fn first_shortcut_with_id(list: &Vec<CustomShortcut>, id: &str) -> (r: Option<usize>)
    ensures
        match r {
            Some(k) => is_first_with_id(shortcuts_view(list@), id@, k as int),
            None => forall|j: int| 0 <= j < list@.len() ==> list@[j]@.id != id@,
        },
{
    let mut k: usize = 0;
    while k < list.len()
        invariant
            k <= list@.len(),
            forall|j: int| 0 <= j < k ==> list@[j]@.id != id@,
        decreases list.len() - k,
    {
        if crate::text::str_eq(list[k].id.as_str(), id) {
            return Some(k);
        }
        k = k + 1;
    }
    None
}

impl CustomShortcuts {
    /// Appends a shortcut with the given id, after checking its URL and color.
    pub fn add_with_id(&mut self, id: String, name: String, url: String, icon: Option<String>, color: Option<String>) -> (r: Result<CustomShortcut, String>)
        ensures
            r is Ok <==> shortcut_fields_outcome(url@, opt_view(color)) is Ok,
            r matches Ok(sc) ==> {
                &&& sc@ == (ShortcutView {
                    id: id@,
                    name: name@,
                    url: url@,
                    icon: opt_view(icon),
                    color: shortcut_fields_outcome(url@, opt_view(color))->Ok_0,
                })
                &&& final(self)@ == old(self)@.push(sc@)
            },
            r matches Err(e) ==> {
                &&& final(self)@ == old(self)@
                &&& Err::<Option<Seq<char>>, Seq<char>>(e@) == shortcut_fields_outcome(url@, opt_view(color))
            },
    {
        let color = match check_shortcut_fields(url.as_str(), color) {
            Err(e) => return Err(e),
            Ok(c) => c,
        };
        let sc = CustomShortcut { id, name, url, icon, color };
        let out = sc.duplicate();
        self.0.push(sc);
        assert(self@ =~= old(self)@.push(out@));
        Ok(out)
    }

    /// Appends a new shortcut with a fresh id made from the current time.
    pub fn add(&mut self, name: String, url: String, icon: Option<String>, color: Option<String>) -> (r: Result<CustomShortcut, String>)
        ensures
            r is Ok <==> shortcut_fields_outcome(url@, opt_view(color)) is Ok,
            r matches Ok(sc) ==> {
                &&& crate::ids::is_valid_id(sc.id@)
                &&& exists|secs: u64, nanos: u32| nanos < 1_000_000_000 && sc.id@ == crate::ids::id_from_time(secs as nat, nanos as nat)
                &&& sc.name@ == name@
                &&& sc.url@ == url@
                &&& opt_view(sc.icon) == opt_view(icon)
                &&& opt_view(sc.color) == shortcut_fields_outcome(url@, opt_view(color))->Ok_0
                &&& final(self)@ == old(self)@.push(sc@)
            },
            r matches Err(e) ==> {
                &&& final(self)@ == old(self)@
                &&& Err::<Option<Seq<char>>, Seq<char>>(e@) == shortcut_fields_outcome(url@, opt_view(color))
            },
    {
        let id = crate::ids::generate_shortcut_id();
        self.add_with_id(id, name, url, icon, color)
    }

    /// Edits the first shortcut with this id, after checking the new URL and
    /// color. Also says whether the URL changed (its webview must then be closed).
    pub fn update(&mut self, id: &str, name: String, url: String, icon: Option<String>, color: Option<String>) -> (r: Result<(CustomShortcut, bool), String>)
        ensures
            r is Ok <==> (shortcut_fields_outcome(url@, opt_view(color)) is Ok
                && exists|k: int| 0 <= k < old(self)@.len() && old(self)@[k].id == id@),
            r matches Ok((sc, url_changed)) ==> exists|k: int| {
                &&& is_first_with_id(old(self)@, id@, k)
                &&& sc@ == (ShortcutView {
                    id: id@,
                    name: name@,
                    url: url@,
                    icon: opt_view(icon),
                    color: shortcut_fields_outcome(url@, opt_view(color))->Ok_0,
                })
                &&& final(self)@ == old(self)@.update(k, sc@)
                &&& url_changed == (old(self)@[k].url != url@)
            },
            r matches Err(e) ==> {
                &&& final(self)@ == old(self)@
                &&& e@ == (match shortcut_fields_outcome(url@, opt_view(color)) {
                    Err(m) => m,
                    Ok(_) => "Shortcut not found: "@ + id@,
                })
            },
    {
        let color = match check_shortcut_fields(url.as_str(), color) {
            Err(e) => return Err(e),
            Ok(c) => c,
        };
        let k = match first_shortcut_with_id(&self.0, id) {
            Some(k) => k,
            None => {
                let mut m = String::from_str("Shortcut not found: ");
                m.append(id);
                return Err(m);
            },
        };
        let url_changed = !crate::text::str_eq(self.0[k].url.as_str(), url.as_str());
        let sc = CustomShortcut { id: self.0[k].id.clone(), name, url, icon, color };
        let out = sc.duplicate();
        self.0.set(k, sc);
        assert(self@ =~= old(self)@.update(k as int, out@));
        Ok((out, url_changed))
    }
}

// ---------------------------------------------------------------------------
// User messengers
// ---------------------------------------------------------------------------

/// A messenger the user added from the catalog.
pub struct UserMessenger {
    pub id: String,
    pub name: String,
    pub url: String,
    pub icon: Option<String>,
    /// Create this webview at app startup instead of on first click.
    pub preload: bool,
}

/// What a user messenger holds, as text.
pub struct UserMessengerView {
    pub id: Seq<char>,
    pub name: Seq<char>,
    pub url: Seq<char>,
    pub icon: Option<Seq<char>>,
    pub preload: bool,
}

impl View for UserMessenger {
    type V = UserMessengerView;

    open spec fn view(&self) -> UserMessengerView {
        UserMessengerView { id: self.id@, name: self.name@, url: self.url@, icon: opt_view(self.icon), preload: self.preload }
    }
}

impl UserMessenger {
    /// A copy with the same contents.
    pub fn duplicate(&self) -> (r: UserMessenger)
        ensures
            r@ == self@,
    {
        UserMessenger {
            id: self.id.clone(),
            name: self.name.clone(),
            url: self.url.clone(),
            icon: clone_opt_string(&self.icon),
            preload: self.preload,
        }
    }

    /// The label of the webview that shows this messenger.
    pub fn webview_label(&self) -> (r: String)
        ensures
            r@ == crate::ids::webview_label_of(self.id@),
    {
        crate::ids::custom_webview_label(self.id.as_str())
    }
}

/// The contents of a list of user messengers.
pub open spec fn messengers_view(v: Seq<UserMessenger>) -> Seq<UserMessengerView> {
    v.map_values(|m: UserMessenger| m@)
}

/// Holds a messenger with another id.
pub open spec fn lacks_messenger_id(x: Seq<char>) -> spec_fn(UserMessengerView) -> bool {
    |m: UserMessengerView| m.id != x
}

/// What a messenger is refused with when it points at Google.
pub open spec fn messenger_google_message() -> Seq<char> {
    "Google services are not supported in the embedded window"@
}

/// The user's messengers, in the order the sidebar and the tray show them.
pub struct UserMessengers(pub Vec<UserMessenger>);

/// Where the first messenger with this id stands, if any does.
fn first_messenger_with_id(list: &Vec<UserMessenger>, id: &str) -> (r: Option<usize>)
    ensures
        match r {
            Some(k) => k < list@.len() && list@[k as int]@.id == id@
                && forall|j: int| 0 <= j < k ==> list@[j]@.id != id@,
            None => forall|j: int| 0 <= j < list@.len() ==> list@[j]@.id != id@,
        },
{
    let mut k: usize = 0;
    while k < list.len()
        invariant
            k <= list@.len(),
            forall|j: int| 0 <= j < k ==> list@[j]@.id != id@,
        decreases list.len() - k,
    {
        if crate::text::str_eq(list[k].id.as_str(), id) {
            return Some(k);
        }
        k = k + 1;
    }
    None
}

impl View for UserMessengers {
    type V = Seq<UserMessengerView>;

    open spec fn view(&self) -> Seq<UserMessengerView> {
        messengers_view(self.0@)
    }
}

pub fn duplicate_messengers(v: &Vec<UserMessenger>) -> (r: Vec<UserMessenger>)
    ensures
        messengers_view(r@) == messengers_view(v@),
{
    let mut r: Vec<UserMessenger> = Vec::new();
    for i in 0..v.len()
        invariant
            messengers_view(r@) == messengers_view(v@.take(i as int)),
    {
        r.push(v[i].duplicate());
        assert(messengers_view(v@.take(i + 1)) =~= messengers_view(v@.take(i as int)).push(v@[i as int]@));
    }
    assert(v@.take(v.len() as int) =~= v@);
    r
}

impl UserMessengers {
    /// A copy of the list, as the sidebar asks for it.
    pub fn list(&self) -> (r: Vec<UserMessenger>)
        ensures
            messengers_view(r@) == self@,
    {
        duplicate_messengers(&self.0)
    }

    /// Appends a messenger with the given id, after checking its URL. It is
    /// preloaded at startup only when asked to be.
    pub fn add_with_id(&mut self, id: String, name: String, url: String, icon: Option<String>, preload: Option<bool>) -> (r: Result<UserMessenger, String>)
        ensures
            r is Ok <==> entry_url_outcome(url_parse(url@), messenger_google_message()) is Ok,
            r matches Ok(m) ==> {
                &&& m@ == (UserMessengerView {
                    id: id@,
                    name: name@,
                    url: url@,
                    icon: opt_view(icon),
                    preload: preload == Some(true),
                })
                &&& final(self)@ == old(self)@.push(m@)
            },
            r matches Err(e) ==> {
                &&& final(self)@ == old(self)@
                &&& Err::<Seq<char>, Seq<char>>(e@) == entry_url_outcome(url_parse(url@), messenger_google_message())
            },
    {
        match validate_entry_url(url.as_str(), "Google services are not supported in the embedded window") {
            Err(e) => return Err(e),
            Ok(_) => {},
        }
        let preload = match preload {
            Some(p) => p,
            None => false,
        };
        let m = UserMessenger { id, name, url, icon, preload };
        let out = m.duplicate();
        self.0.push(m);
        assert(self@ =~= old(self)@.push(out@));
        Ok(out)
    }

    /// Appends a new messenger with a fresh id made from the current time.
    pub fn add(&mut self, name: String, url: String, icon: Option<String>, preload: Option<bool>) -> (r: Result<UserMessenger, String>)
        ensures
            r is Ok <==> entry_url_outcome(url_parse(url@), messenger_google_message()) is Ok,
            r matches Ok(m) ==> {
                &&& crate::ids::is_valid_id(m.id@)
                &&& exists|secs: u64, nanos: u32| nanos < 1_000_000_000 && m.id@ == crate::ids::id_from_time(secs as nat, nanos as nat)
                &&& m.name@ == name@
                &&& m.url@ == url@
                &&& opt_view(m.icon) == opt_view(icon)
                &&& m.preload == (preload == Some(true))
                &&& final(self)@ == old(self)@.push(m@)
            },
            r matches Err(e) ==> {
                &&& final(self)@ == old(self)@
                &&& Err::<Seq<char>, Seq<char>>(e@) == entry_url_outcome(url_parse(url@), messenger_google_message())
            },
    {
        let id = crate::ids::generate_shortcut_id();
        self.add_with_id(id, name, url, icon, preload)
    }

    /// Sets the startup-preload flag of the first messenger with this id; it
    /// takes effect on the next launch.
    pub fn set_preload(&mut self, id: &str, enable: bool) -> (r: Result<(), String>)
        ensures
            r is Ok <==> exists|k: int| 0 <= k < old(self)@.len() && old(self)@[k].id == id@,
            r is Ok ==> exists|k: int| {
                &&& 0 <= k < old(self)@.len()
                &&& old(self)@[k].id == id@
                &&& forall|j: int| 0 <= j < k ==> old(self)@[j].id != id@
                &&& final(self)@ == old(self)@.update(k, UserMessengerView { preload: enable, ..old(self)@[k] })
            },
            r matches Err(e) ==> final(self)@ == old(self)@ && e@ == "Unknown messenger: "@ + id@,
    {
        let k = match first_messenger_with_id(&self.0, id) {
            Some(k) => k,
            None => {
                let mut m = String::from_str("Unknown messenger: ");
                m.append(id);
                return Err(m);
            },
        };
        assert(old(self)@[k as int].id == id@);
        assert(forall|j: int| 0 <= j < k ==> old(self)@[j] == self.0@[j]@);
        let mut entry = self.0[k].duplicate();
        entry.preload = enable;
        let ghost ev = entry@;
        self.0.set(k, entry);
        assert(self@ =~= old(self)@.update(k as int, ev));
        Ok(())
    }

    /// Drops every messenger with this id; the others keep their order.
    pub fn remove_id(&mut self, id: &str)
        ensures
            final(self)@ == old(self)@.filter(lacks_messenger_id(id@)),
    {
        let mut kept: Vec<UserMessenger> = Vec::new();
        let n = self.0.len();
        let mut i: usize = 0;
        while i < n
            invariant
                i <= n,
                n == self.0.len(),
                self@ == old(self)@,
                messengers_view(kept@) == messengers_view(self.0@.take(i as int)).filter(lacks_messenger_id(id@)),
            decreases n - i,
        {
            let keep = !crate::text::str_eq(self.0[i].id.as_str(), id);
            proof {
                assert(messengers_view(self.0@.take(i + 1)) =~= messengers_view(self.0@.take(i as int)).push(self.0@[i as int]@));
                messengers_view(self.0@.take(i as int)).lemma_filter_push(self.0@[i as int]@, lacks_messenger_id(id@));
            }
            let ghost before = kept@;
            if keep {
                kept.push(self.0[i].duplicate());
                assert(messengers_view(kept@) =~= messengers_view(before).push(self.0@[i as int]@));
            }
            i = i + 1;
        }
        assert(self.0@.take(n as int) =~= self.0@);
        self.0 = kept;
    }
}


/// An accepted reorder keeps every shortcut: the new list holds the same
/// shortcuts as the old one, only in another order.
pub proof fn lemma_reordering_is_permutation(current: Seq<ShortcutView>, ids: Seq<Seq<char>>, reordered: Seq<ShortcutView>)
    requires
        is_reordering(current, ids, reordered),
    ensures
        reordered.to_multiset() == current.to_multiset(),
{
    assert forall|e: ShortcutView| reordered.to_multiset().count(e) == current.to_multiset().count(e) by {
        lemma_count_as_filter(reordered, e);
        lemma_count_as_filter(current, e);
        lemma_filter_refines(reordered, e);
        lemma_filter_refines(current, e);
        assert(reordered.filter(has_shortcut_id(e.id)) == current.filter(has_shortcut_id(e.id)));
    }
    assert(reordered.to_multiset() =~= current.to_multiset());
}

/// Picking the copies of `e` out of a list is the same as first picking the
/// entries with its id.
proof fn lemma_filter_refines(s: Seq<ShortcutView>, e: ShortcutView)
    ensures
        s.filter(equals(e)) == s.filter(has_shortcut_id(e.id)).filter(equals(e)),
    decreases s.len(),
{
    reveal(Seq::filter);
    if s.len() > 0 {
        let t = s.drop_last();
        lemma_filter_refines(t, e);
        assert(s =~= t.push(s.last()));
        t.lemma_filter_push(s.last(), equals(e));
        t.lemma_filter_push(s.last(), has_shortcut_id(e.id));
        t.filter(has_shortcut_id(e.id)).lemma_filter_push(s.last(), equals(e));
    }
}

/// A color that was accepted is accepted again unchanged: normalizing is
/// idempotent.
pub proof fn lemma_color_idempotent(raw: Seq<char>)
    requires
        color_outcome(Some(raw)) matches Ok(Some(v)),
    ensures
        color_outcome(Some(color_outcome(Some(raw))->Ok_0->Some_0)) == color_outcome(Some(raw)),
{
    let v = to_ascii_lower(trim(raw));
    assert(is_hex6_color(v));
    assert(trim_start(v) == v) by {
        assert(!is_unicode_whitespace(v[0]));
    }
    assert(trim_end(v) == v) by {
        assert(is_hex_digit(v[6]));
        assert(v.last() == v[6]);
    }
    assert(to_ascii_lower(v) =~= v) by {
        assert forall|i: int| 0 <= i < v.len() implies ascii_lower(#[trigger] v[i]) == v[i] by {
            let w = trim(raw);
            assert(v[i] == ascii_lower(w[i]));
        }
    }
}

} // verus!
