//! Where things are kept, which colour schemes there are, and whether the
//! first-run setup is still due.
//!
//! A path is a run of bytes, as the system has it. The environment is handed
//! in; the files are read and written by the application.

use crate::text::{chars_of, decimal, parse_number, push_decimal, spells, string_of, trim};
use vstd::prelude::*;
use vstd::utf8::encode_utf8;

verus! {

/// The byte between the parts of a path.
pub const SEPARATOR: u8 = 0x2f;

/// The revision of the first-run setup.
pub const ONBOARD_REVISION: u32 = 1;

/// The entry of the theme picker that goes back to the built-in colours.
pub const DEFAULT_THEME_LABEL: &'static str = "Default (built-in)";

/// Most schemes that the first-run setup offers.
pub const MAX_OFFERED_SCHEMES: usize = 8;

/// A path with one more part. A part that is a path from the root stands
/// alone.
pub open spec fn joined(base: Seq<u8>, part: Seq<u8>) -> Seq<u8> {
    if part.len() > 0 && part[0] == SEPARATOR {
        part
    } else if base.len() == 0 || base.last() == SEPARATOR {
        base + part
    } else {
        base.push(SEPARATOR) + part
    }
}

/// Adds one more part to a path.
fn join(base: Vec<u8>, part: &[u8]) -> (path: Vec<u8>)
    ensures
        path@ == joined(base@, part@),
{
    let mut path: Vec<u8> = Vec::new();
    if !(part.len() > 0 && part[0] == SEPARATOR) {
        path.extend_from_slice(base.as_slice());
        assert(path@ =~= base@);
        if base.len() > 0 && base[base.len() - 1] != SEPARATOR {
            path.push(SEPARATOR);
        }
    }
    let ghost before = path@;
    path.extend_from_slice(part);
    assert(path@ =~= before + part@);
    assert(path@ =~= joined(base@, part@));
    path
}

/// A home that is joined with parts.
pub open spec fn under(home: Option<Seq<u8>>, first: Seq<char>, second: Seq<char>) -> Option<
    Seq<u8>,
> {
    match home {
        Some(h) => Some(joined(joined(h, encode_utf8(first)), encode_utf8(second))),
        None => None,
    }
}

/// What an optional path holds.
pub open spec fn path_view(path: Option<Vec<u8>>) -> Option<Seq<u8>> {
    match path {
        Some(p) => Some(p@),
        None => None,
    }
}

/// The directory of the configuration: `.config/yutani` in the home.
pub open spec fn config_dir_of(home: Option<Seq<u8>>) -> Option<Seq<u8>> {
    under(home, ".config"@, "yutani"@)
}

/// The directory of the configuration. `None` without a home.
pub fn config_dir(home: Option<Vec<u8>>) -> (dir: Option<Vec<u8>>)
    ensures
        path_view(dir) == config_dir_of(path_view(home)),
{
    match home {
        Some(h) => Some(join(join(h, ".config".as_bytes()), "yutani".as_bytes())),
        None => None,
    }
}

/// The configuration file.
pub fn config_path(home: Option<Vec<u8>>) -> (path: Option<Vec<u8>>)
    ensures
        path_view(path) == match config_dir_of(path_view(home)) {
            Some(dir) => Some(joined(dir, encode_utf8("config.toml"@))),
            None => None,
        },
{
    match config_dir(home) {
        Some(dir) => Some(join(dir, "config.toml".as_bytes())),
        None => None,
    }
}

/// The directory of the colour schemes.
pub open spec fn schemes_dir_of(home: Option<Seq<u8>>) -> Option<Seq<u8>> {
    match config_dir_of(home) {
        Some(dir) => Some(joined(dir, encode_utf8("schemes"@))),
        None => None,
    }
}

/// The directory of the colour schemes.
pub fn schemes_dir(home: Option<Vec<u8>>) -> (path: Option<Vec<u8>>)
    ensures
        path_view(path) == schemes_dir_of(path_view(home)),
{
    match config_dir(home) {
        Some(dir) => Some(join(dir, "schemes".as_bytes())),
        None => None,
    }
}

/// The file of a colour scheme: its name and `.toml`.
pub fn scheme_path(home: Option<Vec<u8>>, name: &str) -> (path: Option<Vec<u8>>)
    ensures
        path_view(path) == match schemes_dir_of(path_view(home)) {
            Some(dir) => Some(joined(dir, encode_utf8(name@ + ".toml"@))),
            None => None,
        },
{
    let mut file: String = name.to_owned();
    file.append(".toml");
    match schemes_dir(home) {
        Some(dir) => Some(join(dir, file.as_str().as_bytes())),
        None => None,
    }
}

/// The directory of disposable state: under `XDG_STATE_HOME` where it is set
/// and not empty, under `.local/state` in the home otherwise.
pub open spec fn state_dir_of(xdg: Option<Seq<u8>>, home: Option<Seq<u8>>) -> Option<Seq<u8>> {
    let base = match xdg {
        Some(x) => if x.len() > 0 {
            Some(x)
        } else {
            under(home, ".local"@, "state"@)
        },
        None => under(home, ".local"@, "state"@),
    };
    match base {
        Some(b) => Some(joined(b, encode_utf8("yutani"@))),
        None => None,
    }
}

/// The directory of disposable state.
pub fn state_dir(xdg: Option<Vec<u8>>, home: Option<Vec<u8>>) -> (dir: Option<Vec<u8>>)
    ensures
        path_view(dir) == state_dir_of(path_view(xdg), path_view(home)),
{
    if let Some(x) = xdg {
        if x.len() > 0 {
            return Some(join(x, "yutani".as_bytes()));
        }
    }
    match home {
        Some(h) => Some(
            join(
                join(join(h, ".local".as_bytes()), "state".as_bytes()),
                "yutani".as_bytes(),
            ),
        ),
        None => None,
    }
}

/// The file that records a completed first-run setup.
pub fn onboarding_marker(xdg: Option<Vec<u8>>, home: Option<Vec<u8>>) -> (path: Option<Vec<u8>>)
    ensures
        path_view(path) == match state_dir_of(path_view(xdg), path_view(home)) {
            Some(dir) => Some(joined(dir, encode_utf8("onboarded"@))),
            None => None,
        },
{
    match state_dir(xdg, home) {
        Some(dir) => Some(join(dir, "onboarded".as_bytes())),
        None => None,
    }
}

/// The revision that a marker records. A marker that is missing or is no
/// number records none.
pub fn onboarded_revision(marker: Option<&str>) -> (revision: Option<u32>)
    ensures
        revision == match marker {
            Some(text) => crate::text::number_in_text(crate::text::trimmed(text@)),
            None => None,
        },
        forall|n: u32|
            marker matches Some(text) && text@ == #[trigger] decimal(n as nat) ==> revision == Some(
                n,
            ),
{
    match marker {
        Some(text) => {
            let body: Vec<char> = trim(text);
            let revision: Option<u32> = parse_number(&body);
            proof {
                assert forall|n: u32| text@ == #[trigger] decimal(n as nat) implies revision
                    == Some(n) by {
                    crate::text::decimal_is_digits(n as nat);
                    crate::text::decimal_round_trips(n as nat);
                    assert('0' <= text@[0] <= '9');
                    assert('0' <= text@[text@.len() - 1] <= '9');
                    assert(crate::text::bare(text@));
                }
            }
            revision
        },
        None => None,
    }
}

/// Whether the first-run setup is due: it never completed, or at a revision
/// before the current one.
pub fn needs_onboarding(recorded: Option<u32>) -> (due: bool)
    ensures
        due == match recorded {
            Some(r) => r < ONBOARD_REVISION,
            None => true,
        },
{
    match recorded {
        Some(r) => r < ONBOARD_REVISION,
        None => true,
    }
}

/// What the marker of a completed setup holds.
pub fn marker_text() -> (text: String)
    ensures
        text@ == decimal(ONBOARD_REVISION as nat),
{
    let mut text: String = String::new();
    push_decimal(&mut text, ONBOARD_REVISION as u64);
    assert(text@ =~= decimal(ONBOARD_REVISION as nat));
    text
}

/// Whether the setup is due, by the contents of the marker. Once the marker of
/// a completed setup is written, it is not.
pub fn setup_due(marker: Option<&str>) -> (due: bool)
    ensures
        marker is None ==> due,
        marker matches Some(text) && text@ == decimal(ONBOARD_REVISION as nat) ==> !due,
        due == match marker {
            Some(text) => match crate::text::number_in_text(crate::text::trimmed(text@)) {
                Some(r) => r < ONBOARD_REVISION,
                None => true,
            },
            None => true,
        },
{
    needs_onboarding(onboarded_revision(marker))
}

/// The name of a scheme by its file: the file's name without `.toml`, where
/// something is left of it.
pub open spec fn stem_of(file: Seq<char>) -> Option<Seq<char>> {
    let n = file.len() - 5;
    if n > 0 && file.skip(n) == ".toml"@ {
        Some(file.take(n))
    } else {
        None
    }
}

/// The name of a scheme by its file.
pub fn scheme_stem(file: &str) -> (name: Option<String>)
    ensures
        match name {
            Some(s) => stem_of(file@) == Some(s@),
            None => stem_of(file@) is None,
        },
{
    let chars: Vec<char> = chars_of(file);
    if chars.len() <= 5 {
        return None;
    }
    let n: usize = chars.len() - 5;
    let mut head: Vec<char> = chars;
    let tail: Vec<char> = head.split_off(n);
    assert(tail@ =~= file@.skip(n as int));
    assert(head@ =~= file@.take(n as int));
    if spells(&tail, ".toml") {
        Some(string_of(&head))
    } else {
        None
    }
}

/// Whether a text comes before another or is the same, character by character.
pub open spec fn in_order(a: Seq<char>, b: Seq<char>) -> bool
    decreases a.len(),
{
    if a.len() == 0 {
        true
    } else if b.len() == 0 {
        false
    } else if a[0] != b[0] {
        a[0] < b[0]
    } else {
        in_order(a.drop_first(), b.drop_first())
    }
}

/// Compares two texts.
fn comes_first(a: &Vec<char>, b: &Vec<char>) -> (first: bool)
    ensures
        first == in_order(a@, b@),
{
    let mut i: usize = 0;
    assert(a@.skip(0) =~= a@ && b@.skip(0) =~= b@);
    while i < a.len()
        invariant
            i <= a@.len(),
            i <= b@.len(),
            in_order(a@, b@) == in_order(a@.skip(i as int), b@.skip(i as int)),
        decreases a@.len() - i,
    {
        if i == b.len() {
            return false;
        }
        let x: char = a[i];
        let y: char = b[i];
        assert(a@.skip(i as int)[0] == x && b@.skip(i as int)[0] == y);
        if x != y {
            return x < y;
        }
        proof {
            assert(a@.skip(i as int).drop_first() =~= a@.skip(i + 1));
            assert(b@.skip(i as int).drop_first() =~= b@.skip(i + 1));
        }
        i = i + 1;
    }
    true
}

/// What a run of names holds.
pub open spec fn name_views(names: Seq<String>) -> Seq<Seq<char>> {
    Seq::new(names.len(), |i: int| names[i]@)
}

/// A sorted run of names with one more, before the first one that is not
/// before it.
pub open spec fn inserted(names: Seq<Seq<char>>, name: Seq<char>) -> Seq<Seq<char>>
    decreases names.len(),
{
    if names.len() == 0 || in_order(names.last(), name) {
        names.push(name)
    } else {
        inserted(names.drop_last(), name).push(names.last())
    }
}

/// The names of the schemes among some files, in alphabetical order.
pub open spec fn names_of(files: Seq<Seq<char>>) -> Seq<Seq<char>>
    decreases files.len(),
{
    if files.len() == 0 {
        Seq::empty()
    } else {
        match stem_of(files.last()) {
            Some(name) => inserted(names_of(files.drop_last()), name),
            None => names_of(files.drop_last()),
        }
    }
}

/// Puts a name into its place.
fn insert_name(names: &mut Vec<String>, name: String)
    ensures
        name_views(final(names)@) == inserted(name_views(old(names)@), name@),
{
    let ghost before = name_views(names@);
    let chars: Vec<char> = chars_of(name.as_str());
    let n: usize = names.len();
    let mut place: usize = n;
    assert(before.take(n as int) =~= before);
    assert(inserted(before, name@) =~= inserted(before, name@) + before.skip(n as int));
    let mut settled = false;
    while place > 0 && !settled
        invariant
            place <= n,
            n == names@.len(),
            before == name_views(names@),
            chars@ == name@,
            inserted(before, name@) == inserted(before.take(place as int), name@) + before.skip(
                place as int,
            ),
            settled ==> place > 0 && in_order(before[place - 1], name@),
        decreases
                place,
                (if settled {
                    0int
                } else {
                    1int
                }),
    {
        let other: Vec<char> = chars_of(names[place - 1].as_str());
        assert(other@ == before[place - 1]);
        if comes_first(&other, &chars) {
            settled = true;
        } else {
            proof {
                let head = before.take(place as int);
                assert(head.last() == before[place - 1]);
                assert(head.drop_last() =~= before.take(place - 1));
                assert(before.skip(place - 1) =~= seq![before[place - 1]] + before.skip(
                    place as int,
                ));
                assert(inserted(head.drop_last(), name@).push(head.last()) + before.skip(
                    place as int,
                ) =~= inserted(head.drop_last(), name@) + before.skip(place - 1));
            }
            place = place - 1;
        }
    }
    proof {
        let head = before.take(place as int);
        assert(inserted(head, name@) == head.push(name@)) by {
            if place > 0 {
                assert(head.last() == before[place - 1]);
            }
        }
    }
    let ghost new = name@;
    names.insert(place, name);
    assert(name_views(names@) =~= before.take(place as int).push(new) + before.skip(place as int));
}

/// The names of the schemes among the files of a directory, in alphabetical
/// order.
pub fn list_scheme_names(files: &Vec<String>) -> (names: Vec<String>)
    ensures
        name_views(names@) == names_of(name_views(files@)),
{
    let ghost all = name_views(files@);
    let mut names: Vec<String> = Vec::new();
    let mut i: usize = 0;
    assert(all.take(0) =~= Seq::<Seq<char>>::empty());
    assert(name_views(names@) =~= Seq::<Seq<char>>::empty());
    while i < files.len()
        invariant
            i <= files@.len(),
            all == name_views(files@),
            name_views(names@) == names_of(all.take(i as int)),
        decreases files@.len() - i,
    {
        proof {
            assert(all.take(i + 1).drop_last() =~= all.take(i as int));
            assert(all.take(i + 1).last() == files@[i as int]@);
        }
        if let Some(name) = scheme_stem(files[i].as_str()) {
            insert_name(&mut names, name);
        }
        i = i + 1;
    }
    assert(all.take(all.len() as int) =~= all);
    names
}

/// The schemes that the first-run setup offers: the first few, so that each
/// has a digit of its own beside the built-in colours.
pub fn discover_schemes(files: &Vec<String>) -> (names: Vec<String>)
    ensures
        name_views(names@) == ({
            let all = names_of(name_views(files@));
            all.take(
                if all.len() < MAX_OFFERED_SCHEMES {
                    all.len() as int
                } else {
                    MAX_OFFERED_SCHEMES as int
                },
            )
        }),
        names@.len() <= MAX_OFFERED_SCHEMES,
{
    let mut names: Vec<String> = list_scheme_names(files);
    let ghost all = names@;
    names.truncate(MAX_OFFERED_SCHEMES);
    proof {
        let n = if all.len() < MAX_OFFERED_SCHEMES {
            all.len() as int
        } else {
            MAX_OFFERED_SCHEMES as int
        };
        assert(name_views(names@) =~= name_views(all).take(n));
    }
    names
}

/// The names other than the one that stands for the built-in colours.
pub open spec fn real_names(names: Seq<Seq<char>>) -> Seq<Seq<char>>
    decreases names.len(),
{
    if names.len() == 0 {
        Seq::empty()
    } else if names.last() == DEFAULT_THEME_LABEL@ {
        real_names(names.drop_last())
    } else {
        real_names(names.drop_last()).push(names.last())
    }
}

/// Whether a text is the label of the built-in colours.
fn is_default_label(text: &str) -> (b: bool)
    ensures
        b == (text@ == DEFAULT_THEME_LABEL@),
{
    let chars: Vec<char> = chars_of(text);
    spells(&chars, DEFAULT_THEME_LABEL)
}

/// What the theme picker offers: the built-in colours, and then the schemes. A
/// scheme under the label of the built-in colours is left out.
pub fn theme_picker_choices(scheme_names: Vec<String>) -> (choices: Vec<String>)
    ensures
        name_views(choices@) == seq![DEFAULT_THEME_LABEL@] + real_names(name_views(scheme_names@)),
{
    let ghost all = name_views(scheme_names@);
    let mut choices: Vec<String> = Vec::new();
    choices.push(DEFAULT_THEME_LABEL.to_owned());
    let ghost first = seq![DEFAULT_THEME_LABEL@];
    assert(name_views(choices@) =~= first + real_names(Seq::empty()));
    let mut i: usize = 0;
    assert(all.take(0) =~= Seq::<Seq<char>>::empty());
    while i < scheme_names.len()
        invariant
            i <= scheme_names@.len(),
            all == name_views(scheme_names@),
            first == seq![DEFAULT_THEME_LABEL@],
            name_views(choices@) == first + real_names(all.take(i as int)),
        decreases scheme_names@.len() - i,
    {
        let name: &String = &scheme_names[i];
        let ghost before = choices@;
        proof {
            assert(all.take(i + 1).drop_last() =~= all.take(i as int));
            assert(all.take(i + 1).last() == name@);
        }
        if !is_default_label(name.as_str()) {
            choices.push(name.clone());
            assert(name_views(choices@) =~= name_views(before).push(name@));
            assert(name_views(choices@) =~= first + real_names(all.take(i + 1)));
        }
        i = i + 1;
    }
    assert(all.take(all.len() as int) =~= all);
    choices
}

/// The scheme for an entry of the theme picker; `None` for the built-in
/// colours.
pub fn scheme_for_pick(label: &str) -> (scheme: Option<&str>)
    ensures
        match scheme {
            Some(s) => label@ != DEFAULT_THEME_LABEL@ && s@ == label@,
            None => label@ == DEFAULT_THEME_LABEL@,
        },
{
    if is_default_label(label) {
        None
    } else {
        Some(label)
    }
}

/// The value for a scheme slot of the configuration. The built-in colours and
/// a blank pick leave the slot empty.
pub fn scheme_value_from_pick(arg: Option<String>) -> (value: Option<String>)
    ensures
        ({
            let picked = match arg {
                Some(s) => crate::text::trimmed(s@),
                None => Seq::<char>::empty(),
            };
            match value {
                Some(v) => picked.len() > 0 && picked != DEFAULT_THEME_LABEL@ && v@ == picked,
                None => picked.len() == 0 || picked == DEFAULT_THEME_LABEL@,
            }
        }),
        arg matches Some(s) && crate::text::bare(s@) && s@ != DEFAULT_THEME_LABEL@ ==> value is Some
            && value->0@ == arg->0@,
        arg matches Some(s) && s@ == DEFAULT_THEME_LABEL@ ==> value is None,
{
    proof {
        reveal_strlit("Default (built-in)");
    }
    match arg {
        Some(s) => {
            let picked: Vec<char> = trim(s.as_str());
            if picked.len() == 0 || spells(&picked, DEFAULT_THEME_LABEL) {
                None
            } else {
                Some(string_of(&picked))
            }
        },
        None => None,
    }
}

/// The order of names is total, and two names that come before each other are
/// the same.
pub proof fn order_is_total(a: Seq<char>, b: Seq<char>)
    ensures
        in_order(a, b) || in_order(b, a),
        in_order(a, b) && in_order(b, a) ==> a == b,
    decreases a.len(),
{
    if a.len() > 0 && b.len() > 0 {
        if a[0] == b[0] {
            order_is_total(a.drop_first(), b.drop_first());
            if in_order(a, b) && in_order(b, a) {
                assert(a =~= seq![a[0]] + a.drop_first());
                assert(b =~= seq![b[0]] + b.drop_first());
            }
        }
    } else if a.len() == 0 && b.len() == 0 {
        assert(a =~= b);
    }
}

/// The order of names is transitive.
pub proof fn order_is_transitive(a: Seq<char>, b: Seq<char>, c: Seq<char>)
    requires
        in_order(a, b),
        in_order(b, c),
    ensures
        in_order(a, c),
    decreases a.len(),
{
    if a.len() > 0 && a[0] == b[0] && b[0] == c[0] {
        order_is_transitive(a.drop_first(), b.drop_first(), c.drop_first());
    }
}

/// Whether a run of names is in alphabetical order.
pub open spec fn alphabetical(names: Seq<Seq<char>>) -> bool {
    forall|i: int, j: int|
        0 <= i < j < names.len() ==> in_order(#[trigger] names[i], #[trigger] names[j])
}

proof fn inserted_is_alphabetical(names: Seq<Seq<char>>, name: Seq<char>)
    requires
        alphabetical(names),
    ensures
        alphabetical(inserted(names, name)),
        inserted(names, name).to_multiset() == names.to_multiset().insert(name),
        forall|k: int|
            0 <= k < inserted(names, name).len() ==> (#[trigger] inserted(names, name)[k]) == name
                || names.contains(inserted(names, name)[k]),
    decreases names.len(),
{
    broadcast use vstd::seq_lib::group_to_multiset_ensures;

    let out = inserted(names, name);
    if names.len() == 0 || in_order(names.last(), name) {
        assert forall|i: int, j: int| 0 <= i < j < out.len() implies in_order(
            #[trigger] out[i],
            #[trigger] out[j],
        ) by {
            if j == names.len() && i < names.len() - 1 {
                order_is_transitive(names[i], names.last(), name);
            }
        }
        assert forall|k: int| 0 <= k < out.len() implies (#[trigger] out[k]) == name
            || names.contains(out[k]) by {
            if k < names.len() {
                assert(names[k] == out[k]);
            }
        }
    } else {
        let head = names.drop_last();
        inserted_is_alphabetical(head, name);
        let rest = inserted(head, name);
        order_is_total(names.last(), name);
        assert forall|i: int, j: int| 0 <= i < j < out.len() implies in_order(
            #[trigger] out[i],
            #[trigger] out[j],
        ) by {
            assert(out[i] == rest[i]);
            if j < rest.len() {
                assert(out[j] == rest[j]);
            } else if rest[i] != name {
                let m = choose|m: int| 0 <= m < head.len() && head[m] == rest[i];
                assert(names[m] == rest[i]);
            }
        }
        assert forall|k: int| 0 <= k < out.len() implies (#[trigger] out[k]) == name
            || names.contains(out[k]) by {
            if k < rest.len() {
                assert(out[k] == rest[k]);
                if rest[k] != name {
                    let m = choose|m: int| 0 <= m < head.len() && head[m] == rest[k];
                    assert(names[m] == out[k]);
                }
            } else {
                assert(names[names.len() - 1] == out[k]);
            }
        }
        assert(names =~= head.push(names.last()));
        assert(out.to_multiset() =~= names.to_multiset().insert(name));
    }
}

/// The names of the scheme files as a multiset.
pub open spec fn stems(files: Seq<Seq<char>>) -> vstd::multiset::Multiset<Seq<char>>
    decreases files.len(),
{
    if files.len() == 0 {
        vstd::multiset::Multiset::empty()
    } else {
        match stem_of(files.last()) {
            Some(name) => stems(files.drop_last()).insert(name),
            None => stems(files.drop_last()),
        }
    }
}

/// The list of schemes is in alphabetical order and holds exactly the names of
/// the scheme files.
pub proof fn schemes_are_listed_in_order(files: Seq<Seq<char>>)
    ensures
        alphabetical(names_of(files)),
        names_of(files).to_multiset() == stems(files),
    decreases files.len(),
{
    broadcast use vstd::seq_lib::group_to_multiset_ensures;

    if files.len() == 0 {
        assert(names_of(files).to_multiset() =~= vstd::multiset::Multiset::empty());
    } else {
        schemes_are_listed_in_order(files.drop_last());
        match stem_of(files.last()) {
            Some(name) => {
                inserted_is_alphabetical(names_of(files.drop_last()), name);
            },
            None => {},
        }
    }
}

/// A scheme's file and its name belong together: the file that a name leads to
/// is listed under that name.
pub proof fn scheme_file_is_listed(name: Seq<char>)
    requires
        name.len() > 0,
    ensures
        stem_of(name + ".toml"@) == Some(name),
{
    reveal_strlit(".toml");
    let file = name + ".toml"@;
    assert(file.skip(name.len() as int) =~= ".toml"@);
    assert(file.take(name.len() as int) =~= name);
}

/// Only the first entry of the theme picker is the built-in one.
pub proof fn picker_label_is_unambiguous(names: Seq<Seq<char>>, i: int)
    requires
        0 <= i < real_names(names).len(),
    ensures
        real_names(names)[i] != DEFAULT_THEME_LABEL@,
        names.contains(real_names(names)[i]),
    decreases names.len(),
{
    let before = names.drop_last();
    if names.last() == DEFAULT_THEME_LABEL@ {
        picker_label_is_unambiguous(before, i);
        let j = choose|j: int| 0 <= j < before.len() && before[j] == real_names(names)[i];
        assert(names[j] == real_names(names)[i]);
    } else if i < real_names(before).len() {
        picker_label_is_unambiguous(before, i);
        let j = choose|j: int| 0 <= j < before.len() && before[j] == real_names(names)[i];
        assert(names[j] == real_names(names)[i]);
    } else {
        assert(names[names.len() - 1] == real_names(names)[i]);
    }
}

proof fn ascii_text_is_its_bytes(text: Seq<char>)
    requires
        vstd::utf8::is_ascii_chars(text),
    ensures
        encode_utf8(text) == Seq::new(text.len(), |i: int| text[i] as u8),
{
    vstd::utf8::is_ascii_chars_encode_utf8(text);
    assert(encode_utf8(text) =~= Seq::new(text.len(), |i: int| text[i] as u8));
}

proof fn parts_are_ascii()
    ensures
        encode_utf8(".config/yutani"@) == encode_utf8(".config"@).push(0x2f) + encode_utf8(
            "yutani"@,
        ),
        encode_utf8("config.toml"@)[0] == 0x63,
        encode_utf8("schemes"@)[0] == 0x73,
        encode_utf8("onboarded"@)[0] == 0x6f,
        encode_utf8(".config"@)[0] == 0x2e,
        encode_utf8("yutani"@)[0] == 0x79,
        encode_utf8("yutani"@).last() == 0x69,
        encode_utf8("schemes"@).last() == 0x73,
        encode_utf8(".config"@).last() == 0x67,
        encode_utf8(".config"@).len() == 7,
        encode_utf8("yutani"@).len() == 6,
        encode_utf8("schemes"@).len() == 7,
        encode_utf8("onboarded"@).len() == 9,
        encode_utf8("config.toml"@).len() == 11,
        encode_utf8(".local"@)[0] == 0x2e,
        encode_utf8(".local"@).last() == 0x6c,
        encode_utf8(".local"@).len() == 6,
        encode_utf8("state"@)[0] == 0x73,
        encode_utf8("state"@).last() == 0x65,
        encode_utf8("state"@).len() == 5,
        encode_utf8(".local/state/yutani"@) == encode_utf8(".local"@).push(0x2f) + encode_utf8(
            "state"@,
        ).push(0x2f) + encode_utf8("yutani"@),
{
    reveal_strlit(".config/yutani");
    reveal_strlit(".config");
    reveal_strlit("yutani");
    reveal_strlit("config.toml");
    reveal_strlit("schemes");
    reveal_strlit("onboarded");
    reveal_strlit(".local");
    reveal_strlit("state");
    reveal_strlit(".local/state/yutani");
    ascii_text_is_its_bytes(".config/yutani"@);
    ascii_text_is_its_bytes(".config"@);
    ascii_text_is_its_bytes("yutani"@);
    ascii_text_is_its_bytes("config.toml"@);
    ascii_text_is_its_bytes("schemes"@);
    ascii_text_is_its_bytes("onboarded"@);
    ascii_text_is_its_bytes(".local"@);
    ascii_text_is_its_bytes("state"@);
    ascii_text_is_its_bytes(".local/state/yutani"@);
    assert(".config/yutani"@ =~= ".config"@.push('/') + "yutani"@);
    assert(encode_utf8(".config/yutani"@) =~= encode_utf8(".config"@).push(0x2f) + encode_utf8(
        "yutani"@,
    ));
    assert(".local/state/yutani"@ =~= ".local"@.push('/') + "state"@.push('/') + "yutani"@);
    assert(encode_utf8(".local/state/yutani"@) =~= encode_utf8(".local"@).push(0x2f) + encode_utf8(
        "state"@,
    ).push(0x2f) + encode_utf8("yutani"@));
}

/// The configuration is in `.config/yutani` under the home, which gets a slash
/// behind it unless it ends in one or is empty; its file is `config.toml` there, and
/// its schemes are in `schemes`. Without a home there is none of them.
pub proof fn configuration_is_under_the_home(
    home: Vec<u8>,
    base: Seq<u8>,
    dir: Option<Vec<u8>>,
    file: Option<Vec<u8>>,
    schemes: Option<Vec<u8>>,
    no_dir: Option<Vec<u8>>,
    no_file: Option<Vec<u8>>,
    no_schemes: Option<Vec<u8>>,
)
    requires
        call_ensures(config_dir, (Some(home),), dir),
        call_ensures(config_path, (Some(home),), file),
        call_ensures(schemes_dir, (Some(home),), schemes),
        call_ensures(config_dir, (None,), no_dir),
        call_ensures(config_path, (None,), no_file),
        call_ensures(schemes_dir, (None,), no_schemes),
        home@.len() == 0 || home@.last() == 0x2f ==> base == home@,
        home@.len() > 0 && home@.last() != 0x2f ==> base == home@.push(0x2f),
    ensures
        dir is Some && (dir->0)@ == base + encode_utf8(".config/yutani"@),
        file is Some && (file->0)@ == (dir->0)@.push(0x2f) + encode_utf8("config.toml"@),
        schemes is Some && (schemes->0)@ == (dir->0)@.push(0x2f) + encode_utf8("schemes"@),
        no_dir is None && no_file is None && no_schemes is None,
{
    parts_are_ascii();
    let first = joined(home@, encode_utf8(".config"@));
    assert(first =~= base + encode_utf8(".config"@));
    assert(first.last() == 0x67);
    assert((dir->0)@ =~= base + encode_utf8(".config/yutani"@));
    assert((dir->0)@.last() == 0x69);
}

/// A scheme is in the directory of the schemes, under its name with `.toml` behind
/// it; a name that is a path from the root is that path.
pub proof fn scheme_is_under_the_schemes(
    home: Vec<u8>,
    name: &str,
    schemes: Option<Vec<u8>>,
    path: Option<Vec<u8>>,
    no_path: Option<Vec<u8>>,
)
    requires
        call_ensures(schemes_dir, (Some(home),), schemes),
        call_ensures(scheme_path, (Some(home), name), path),
        call_ensures(scheme_path, (None, name), no_path),
    ensures
        no_path is None,
        path is Some && schemes is Some,
        ({
            let file = encode_utf8(name@ + ".toml"@);
            let absolute = file.len() > 0 && file[0] == 0x2f;
            &&& absolute ==> (path->0)@ == file
            &&& !absolute ==> (path->0)@ == (schemes->0)@.push(0x2f) + file
        }),
{
    parts_are_ascii();
    let dir = config_dir_of(Some(home@))->0;
    assert(joined(dir, encode_utf8("schemes"@)).last() == 0x73);
}

/// State is in `yutani` under the state home where that is set and not empty, and in
/// `.local/state/yutani` under the home otherwise; the marker of the setup is
/// `onboarded` there.
pub proof fn state_is_under_the_state_home(
    xdg: Option<Vec<u8>>,
    home: Vec<u8>,
    base: Seq<u8>,
    dir: Option<Vec<u8>>,
    marker: Option<Vec<u8>>,
    nowhere: Option<Vec<u8>>,
    no_marker: Option<Vec<u8>>,
)
    requires
        call_ensures(state_dir, (xdg, Some(home)), dir),
        call_ensures(onboarding_marker, (xdg, Some(home)), marker),
        call_ensures(state_dir, (xdg, None), nowhere),
        call_ensures(onboarding_marker, (xdg, None), no_marker),
        ({
            let root = if xdg is Some && (xdg->0)@.len() > 0 {
                (xdg->0)@
            } else {
                home@
            };
            &&& root.len() == 0 || root.last() == 0x2f ==> base == root
            &&& root.len() > 0 && root.last() != 0x2f ==> base == root.push(0x2f)
        }),
    ensures
        dir is Some && marker is Some,
        xdg is Some && (xdg->0)@.len() > 0 ==> (dir->0)@ == base + encode_utf8("yutani"@),
        xdg is None || (xdg->0)@.len() == 0 ==> (dir->0)@ == base + encode_utf8(
            ".local/state/yutani"@,
        ),
        (marker->0)@ == (dir->0)@.push(0x2f) + encode_utf8("onboarded"@),
        nowhere is Some <==> xdg is Some && (xdg->0)@.len() > 0,
        nowhere is Some ==> (nowhere->0)@ == (dir->0)@,
        no_marker is Some <==> nowhere is Some,
        no_marker is Some ==> (no_marker->0)@ == (marker->0)@,
{
    parts_are_ascii();
    if xdg is Some && (xdg->0)@.len() > 0 {
        assert((dir->0)@ =~= base + encode_utf8("yutani"@));
    } else {
        let first = joined(home@, encode_utf8(".local"@));
        assert(first =~= base + encode_utf8(".local"@));
        assert(first.last() == 0x6c);
        let second = joined(first, encode_utf8("state"@));
        assert(second =~= base + (encode_utf8(".local"@).push(0x2f) + encode_utf8("state"@)));
        assert(second.last() == 0x65);
        assert((dir->0)@ =~= base + encode_utf8(".local/state/yutani"@));
    }
    assert((dir->0)@.last() == 0x69);
}

/// The setup is due unless one was completed at the first revision or later, which
/// the marker `1` records.
pub proof fn setup_is_due_until_it_completed(
    recorded: Option<u32>,
    due: bool,
    text: String,
    marker: &str,
    revision: Option<u32>,
    by_marker: bool,
    without: bool,
)
    requires
        call_ensures(needs_onboarding, (recorded,), due),
        call_ensures(marker_text, (), text),
        call_ensures(onboarded_revision, (Some(marker),), revision),
        call_ensures(setup_due, (Some(marker),), by_marker),
        call_ensures(setup_due, (None,), without),
    ensures
        due <==> !(recorded is Some && recorded->0 >= 1),
        text@ == seq!['1'],
        by_marker <==> !(revision is Some && revision->0 >= 1),
        without,
        marker@ == text@ ==> revision == Some(1u32),
{
    reveal_with_fuel(decimal, 2);
    assert(text@ =~= seq!['1']);
    assert(decimal(1u32 as nat) == text@);
}

/// A file is a scheme exactly when something stands before the `.toml` at its end,
/// which is the scheme's name.
pub proof fn stem_stands_before_the_ending(file: &str, name: Option<String>, stem: Seq<char>)
    requires
        call_ensures(scheme_stem, (file,), name),
    ensures
        name is Some ==> (name->0)@.len() > 0 && file@ == (name->0)@ + seq![
            '.',
            't',
            'o',
            'm',
            'l',
        ],
        stem.len() > 0 && file@ == stem + seq!['.', 't', 'o', 'm', 'l'] ==> name is Some && (
        name->0)@ == stem,
{
    reveal_strlit(".toml");
    let end = seq!['.', 't', 'o', 'm', 'l'];
    assert(".toml"@ =~= end);
    if name is Some {
        let n = file@.len() - 5;
        assert(file@ =~= file@.take(n) + file@.skip(n));
    }
    if stem.len() > 0 && file@ == stem + end {
        let n = stem.len() as int;
        assert(file@.skip(n) =~= end);
        assert(file@.take(n) =~= stem);
    }
}

proof fn order_is_by_the_first_difference(a: Seq<char>, b: Seq<char>) -> (at: int)
    requires
        in_order(a, b),
    ensures
        0 <= at <= a.len() && at <= b.len(),
        a.take(at) == b.take(at),
        at == a.len() || (at < b.len() && a[at] < b[at]),
    decreases a.len(),
{
    if a.len() == 0 || a[0] != b[0] {
        assert(a.take(0) =~= b.take(0));
        0
    } else {
        let at = order_is_by_the_first_difference(a.drop_first(), b.drop_first()) + 1;
        assert forall|i: int| 0 <= i < at implies a[i] == b[i] by {
            if i > 0 {
                assert(a.drop_first().take(at - 1)[i - 1] == a[i]);
                assert(b.drop_first().take(at - 1)[i - 1] == b[i]);
            }
        }
        assert(a.take(at) =~= b.take(at));
        at
    }
}

/// The schemes are listed in order: of two of them the first is the beginning of the
/// second, or has the smaller character where they first differ.
pub proof fn list_is_in_order(files: &Vec<String>, names: Vec<String>, i: int, j: int) -> (at: int)
    requires
        call_ensures(list_scheme_names, (files,), names),
        0 <= i < j < names@.len(),
    ensures
        0 <= at <= names@[i]@.len() && at <= names@[j]@.len(),
        names@[i]@.take(at) == names@[j]@.take(at),
        at == names@[i]@.len() || (at < names@[j]@.len() && names@[i]@[at] < names@[j]@[at]),
{
    schemes_are_listed_in_order(name_views(files@));
    let all = name_views(names@);
    assert(all[i] == names@[i]@ && all[j] == names@[j]@);
    order_is_by_the_first_difference(all[i], all[j])
}

/// One file more adds its name to the list if it is a scheme's, and nothing
/// otherwise. Without files the list is empty.
pub proof fn list_grows_by_the_scheme_files(
    files: &Vec<String>,
    more: &Vec<String>,
    names: Vec<String>,
    more_names: Vec<String>,
    stem: Option<String>,
)
    requires
        call_ensures(list_scheme_names, (files,), names),
        call_ensures(list_scheme_names, (more,), more_names),
        more@.len() == files@.len() + 1,
        forall|i: int| 0 <= i < files@.len() ==> (#[trigger] more@[i])@ == files@[i]@,
        ({
            let last = more@.last()@;
            let n = last.len() - 5;
            if n > 0 && last.skip(n) == seq!['.', 't', 'o', 'm', 'l'] {
                stem is Some && (stem->0)@ == last.take(n)
            } else {
                stem is None
            }
        }),
    ensures
        files@.len() == 0 ==> names@.len() == 0,
        ({
            let before = names@.map_values((|s: String| s@)).to_multiset();
            let after = more_names@.map_values((|s: String| s@)).to_multiset();
            &&& stem is Some ==> after == before.insert((stem->0)@)
            &&& stem is None ==> after == before
        }),
{
    reveal_strlit(".toml");
    assert(".toml"@ =~= seq!['.', 't', 'o', 'm', 'l']);
    let all = name_views(more@);
    assert(all.drop_last() =~= name_views(files@));
    assert(all.last() == more@.last()@);
    schemes_are_listed_in_order(all);
    schemes_are_listed_in_order(name_views(files@));
    assert(names@.map_values((|s: String| s@)) =~= name_views(names@));
    assert(more_names@.map_values((|s: String| s@)) =~= name_views(more_names@));
    if files@.len() == 0 {
        assert(names@.len() == name_views(names@).len());
    }
}

/// The setup offers the first eight of the list.
pub proof fn setup_offers_the_first_schemes(
    files: &Vec<String>,
    names: Vec<String>,
    offered: Vec<String>,
    i: int,
)
    requires
        call_ensures(list_scheme_names, (files,), names),
        call_ensures(discover_schemes, (files,), offered),
    ensures
        names@.len() <= 8 ==> offered@.len() == names@.len(),
        names@.len() > 8 ==> offered@.len() == 8,
        0 <= i < offered@.len() ==> offered@[i]@ == names@[i]@,
{
    assert(name_views(offered@).len() == offered@.len());
    assert(name_views(names@).len() == names@.len());
    if 0 <= i < offered@.len() {
        assert(name_views(offered@)[i] == name_views(names@)[i]);
    }
}

proof fn real_names_are_a_filter(names: Seq<Seq<char>>, keep: spec_fn(Seq<char>) -> bool)
    requires
        forall|n: Seq<char>| #[trigger] keep(n) == (n != DEFAULT_THEME_LABEL@),
    ensures
        real_names(names) == names.filter(keep),
    decreases names.len(),
{
    reveal(Seq::filter);
    if names.len() > 0 {
        real_names_are_a_filter(names.drop_last(), keep);
    }
}

/// The picker offers the built-in colours, and then the schemes in their order,
/// without those that have the same label.
pub proof fn picker_offers_the_schemes(names: Vec<String>, choices: Vec<String>)
    requires
        call_ensures(theme_picker_choices, (names,), choices),
    ensures
        choices@.map_values((|s: String| s@)) == seq!["Default (built-in)"@] + names@.map_values(
            (|s: String| s@),
        ).filter((|n: Seq<char>| n != "Default (built-in)"@)),
{
    let keep = (|n: Seq<char>| n != "Default (built-in)"@);
    real_names_are_a_filter(name_views(names@), keep);
    assert(choices@.map_values((|s: String| s@)) =~= name_views(choices@));
    assert(names@.map_values((|s: String| s@)) =~= name_views(names@));
}

/// A pick stands for the scheme of its name, and the built-in label for none; the
/// configuration gets the name without white space around it, and nothing for a
/// blank pick.
pub proof fn pick_stands_for_its_scheme(
    label: &str,
    scheme: Option<&str>,
    arg: String,
    text: &str,
    words: Vec<char>,
    value: Option<String>,
    without: Option<String>,
)
    requires
        call_ensures(scheme_for_pick, (label,), scheme),
        text@ == arg@,
        call_ensures(trim, (text,), words),
        call_ensures(scheme_value_from_pick, (Some(arg),), value),
        call_ensures(scheme_value_from_pick, (None,), without),
    ensures
        scheme is None <==> label@ == "Default (built-in)"@,
        scheme is Some ==> (scheme->0)@ == label@,
        value is None <==> (words@.len() == 0 || words@ == "Default (built-in)"@),
        value is Some ==> (value->0)@ == words@,
        without is None,
{
}

} // verus!
