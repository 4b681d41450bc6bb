//! Properties that hold across the operations of the store and the tracker.
use vstd::prelude::*;

use crate::model::SettingsView;
use crate::store::{
    clamp, flag_text, font_family_name, key_is, opened, put_default, set_value, setting_value,
    settings_from, settings_written, with_default_settings,
};
use crate::text::{decimal, lemma_parse_i32_decimal, lemma_parse_u32_decimal, signed_decimal};
use crate::usage::{first_index, lemma_first_index, lemma_first_index_found};

verus! {

/// The settings as `update_settings` stores them: each number kept within its range, the
/// font family one of the three families.
pub open spec fn normalized_settings(s: SettingsView) -> SettingsView {
    SettingsView {
        idle_minutes: clamp(s.idle_minutes as int, 1, 120) as u32,
        launch_at_login: s.launch_at_login,
        show_widget: s.show_widget,
        font_family: font_family_name(s.font_family),
        widget_height: clamp(s.widget_height as int, 48, 160) as u32,
        widget_x_offset: clamp(s.widget_x_offset as int, -1000, 1000) as i32,
        widget_y_offset: clamp(s.widget_y_offset as int, -1000, 1000) as i32,
    }
}

/// A search over mapped elements finds the same position where the map keeps the searched
/// property.
pub proof fn lemma_first_index_map<T>(s: Seq<T>, f: spec_fn(T) -> T, p: spec_fn(T) -> bool)
    requires
        forall|x: T| #[trigger] p(f(x)) == p(x),
    ensures
        first_index(s.map_values(f), p) == first_index(s, p),
    decreases s.len(),
{
    if s.len() > 0 {
        assert(s.map_values(f).drop_first() =~= s.drop_first().map_values(f));
        assert(s.map_values(f)[0] == f(s[0]));
        lemma_first_index_map(s.drop_first(), f, p);
    }
}

/// Setting a key and reading it back gives the value set, where the key has a row;
/// reading another key gives what it held.
pub proof fn lemma_set_value_read(
    settings: Seq<(Seq<char>, Seq<char>)>,
    k: Seq<char>,
    v: Seq<char>,
    q: Seq<char>,
)
    ensures
        setting_value(set_value(settings, k, v), q) == if q == k && setting_value(settings, k) is Some {
            Some(v)
        } else {
            setting_value(settings, q)
        },
{
    let f = |row: (Seq<char>, Seq<char>)|
        if row.0 == k {
            (k, v)
        } else {
            row
        };
    assert(set_value(settings, k, v) == settings.map_values(f));
    assert forall|x: (Seq<char>, Seq<char>)| #[trigger] key_is(q)(f(x)) == key_is(q)(x) by {}
    lemma_first_index_map(settings, f, key_is(q));
    crate::usage::lemma_first_index_found(settings, key_is(q));
}

/// The text of a flag reads back as the flag.
pub proof fn lemma_flag_text(b: bool)
    ensures
        (flag_text(b) == "true"@) == b,
{
    reveal_strlit("true");
    reveal_strlit("false");
    assert("true"@.len() == 4);
    assert("false"@.len() == 5);
}

/// Normalizing a font family twice is normalizing it once.
pub proof fn lemma_font_family_idempotent(v: Seq<char>)
    ensures
        font_family_name(font_family_name(v)) == font_family_name(v),
{
    reveal_strlit("serif");
    reveal_strlit("sans");
    reveal_strlit("classic");
    assert("serif"@.len() == 5);
    assert("sans"@.len() == 4);
    assert("classic"@.len() == 7);
}

/// The seven setting keys differ from each other.
pub proof fn lemma_setting_keys_differ()
    ensures
        "idle_minutes"@ != "launch_at_login"@,
        "idle_minutes"@ != "show_widget"@,
        "idle_minutes"@ != "font_family"@,
        "idle_minutes"@ != "widget_height"@,
        "idle_minutes"@ != "widget_x_offset"@,
        "idle_minutes"@ != "widget_y_offset"@,
        "launch_at_login"@ != "show_widget"@,
        "launch_at_login"@ != "font_family"@,
        "launch_at_login"@ != "widget_height"@,
        "launch_at_login"@ != "widget_x_offset"@,
        "launch_at_login"@ != "widget_y_offset"@,
        "show_widget"@ != "font_family"@,
        "show_widget"@ != "widget_height"@,
        "show_widget"@ != "widget_x_offset"@,
        "show_widget"@ != "widget_y_offset"@,
        "font_family"@ != "widget_height"@,
        "font_family"@ != "widget_x_offset"@,
        "font_family"@ != "widget_y_offset"@,
        "widget_height"@ != "widget_x_offset"@,
        "widget_height"@ != "widget_y_offset"@,
        "widget_x_offset"@ != "widget_y_offset"@,
{
    reveal_strlit("idle_minutes");
    reveal_strlit("launch_at_login");
    reveal_strlit("show_widget");
    reveal_strlit("font_family");
    reveal_strlit("widget_height");
    reveal_strlit("widget_x_offset");
    reveal_strlit("widget_y_offset");
    assert("idle_minutes"@.len() == 12);
    assert("launch_at_login"@.len() == 15);
    assert("show_widget"@.len() == 11);
    assert("font_family"@.len() == 11);
    assert("widget_height"@.len() == 13);
    assert("widget_x_offset"@.len() == 15);
    assert("widget_y_offset"@.len() == 15);
    assert("launch_at_login"@[0] != "widget_x_offset"@[0]);
    assert("launch_at_login"@[0] != "widget_y_offset"@[0]);
    assert("show_widget"@[0] != "font_family"@[0]);
    assert("widget_x_offset"@[7] != "widget_y_offset"@[7]);
}

/// Reading the settings back after storing them gives what was stored, each value within
/// its range, wherever every setting has a row (as it has once the store is open).
pub proof fn law_settings_read_back(settings: Seq<(Seq<char>, Seq<char>)>, s: SettingsView)
    requires
        settings_from(settings) is Some,
    ensures
        settings_from(settings_written(settings, s)) == Some(normalized_settings(s)),
{
    lemma_setting_keys_differ();
    let idle = decimal_of_clamp_u32(s.idle_minutes, 1, 120);
    let height = decimal_of_clamp_u32(s.widget_height, 48, 160);
    let s0 = settings;
    let s1 = set_value(s0, "idle_minutes"@, crate::text::decimal(clamp(s.idle_minutes as int, 1, 120) as nat));
    let s2 = set_value(s1, "launch_at_login"@, flag_text(s.launch_at_login));
    let s3 = set_value(s2, "show_widget"@, flag_text(s.show_widget));
    let s4 = set_value(s3, "font_family"@, font_family_name(s.font_family));
    let s5 = set_value(s4, "widget_height"@, crate::text::decimal(clamp(s.widget_height as int, 48, 160) as nat));
    let s6 = set_value(s5, "widget_x_offset"@, crate::text::signed_decimal(clamp(s.widget_x_offset as int, -1000, 1000)));
    let s7 = set_value(s6, "widget_y_offset"@, crate::text::signed_decimal(clamp(s.widget_y_offset as int, -1000, 1000)));
    assert(s7 == settings_written(settings, s));
    let keys = seq!["idle_minutes"@, "launch_at_login"@, "show_widget"@, "font_family"@, "widget_height"@, "widget_x_offset"@, "widget_y_offset"@];
    assert forall|i: int| 0 <= i < 7 implies setting_value(s0, #[trigger] keys[i]) is Some by {}
    let vals = seq![
        crate::text::decimal(clamp(s.idle_minutes as int, 1, 120) as nat),
        flag_text(s.launch_at_login),
        flag_text(s.show_widget),
        font_family_name(s.font_family),
        crate::text::decimal(clamp(s.widget_height as int, 48, 160) as nat),
        crate::text::signed_decimal(clamp(s.widget_x_offset as int, -1000, 1000)),
        crate::text::signed_decimal(clamp(s.widget_y_offset as int, -1000, 1000)),
    ];
    let st = seq![s0, s1, s2, s3, s4, s5, s6, s7];
    assert forall|j: int| 0 <= j < 7 implies #[trigger] st[j + 1] == set_value(st[j], keys[j], vals[j]) by {}
    assert forall|j: int, i: int| 0 <= j <= 7 && 0 <= i < 7 implies #[trigger] setting_value(st[j], #[trigger] keys[i])
        == if i < j { Some(vals[i]) } else { setting_value(s0, keys[i]) } by {
        lemma_settings_chain(st, keys, vals, j, i);
    }
    assert(setting_value(s7, keys[0]) == Some(vals[0]));
    assert(setting_value(s7, keys[1]) == Some(vals[1]));
    assert(setting_value(s7, keys[2]) == Some(vals[2]));
    assert(setting_value(s7, keys[3]) == Some(vals[3]));
    assert(setting_value(s7, keys[4]) == Some(vals[4]));
    assert(setting_value(s7, keys[5]) == Some(vals[5]));
    assert(setting_value(s7, keys[6]) == Some(vals[6]));
    lemma_flag_text(s.launch_at_login);
    lemma_flag_text(s.show_widget);
    lemma_font_family_idempotent(s.font_family);
    assert(idle == clamp(s.idle_minutes as int, 1, 120));
    assert(height == clamp(s.widget_height as int, 48, 160));
    lemma_parse_i32_decimal(clamp(s.widget_x_offset as int, -1000, 1000) as i32);
    lemma_parse_i32_decimal(clamp(s.widget_y_offset as int, -1000, 1000) as i32);
}

/// The clamped value reads back from its decimal text.
proof fn decimal_of_clamp_u32(v: u32, lo: int, hi: int) -> (r: int)
    requires
        0 <= lo <= hi <= u32::MAX,
    ensures
        r == clamp(v as int, lo, hi),
        crate::text::parsed_u32(crate::text::decimal(r as nat)) == Some(r as u32),
{
    let r = clamp(v as int, lo, hi);
    lemma_parse_u32_decimal(r as u32);
    r
}

/// Through a chain of settings updates on distinct keys, each key reads what was last set.
proof fn lemma_settings_chain(
    st: Seq<Seq<(Seq<char>, Seq<char>)>>,
    keys: Seq<Seq<char>>,
    vals: Seq<Seq<char>>,
    j: int,
    i: int,
)
    requires
        st.len() == 8,
        keys.len() == 7,
        vals.len() == 7,
        0 <= j <= 7,
        0 <= i < 7,
        forall|a: int, b: int| 0 <= a < 7 && 0 <= b < 7 && a != b ==> keys[a] != keys[b],
        forall|a: int| 0 <= a < 7 ==> setting_value(st[0], #[trigger] keys[a]) is Some,
        forall|a: int| 0 <= a < 7 ==> #[trigger] st[a + 1] == set_value(st[a], keys[a], vals[a]),
    ensures
        setting_value(st[j], keys[i]) == if i < j {
            Some(vals[i])
        } else {
            setting_value(st[0], keys[i])
        },
    decreases j,
{
    if j > 0 {
        lemma_settings_chain(st, keys, vals, j - 1, i);
        lemma_settings_chain(st, keys, vals, j - 1, j - 1);
        let a = j - 1;
        assert(st[a + 1] == set_value(st[a], keys[a], vals[a]));
        assert(a + 1 == j);
        lemma_set_value_read(st[j - 1], keys[j - 1], vals[j - 1], keys[i]);
    }
}

/// Adding an element at the end leaves the first match where it was; with no match
/// before, the new element is the first match if it matches.
pub proof fn lemma_first_index_push<T>(s: Seq<T>, x: T, p: spec_fn(T) -> bool)
    ensures
        first_index(s.push(x), p) == match first_index(s, p) {
            Some(i) => Some(i),
            None => if p(x) {
                Some(s.len() as int)
            } else {
                None
            },
        },
{
    lemma_first_index_found(s, p);
    let t = s.push(x);
    assert forall|j: int| 0 <= j < s.len() implies #[trigger] t[j] == s[j] by {}
    match first_index(s, p) {
        Some(i) => {
            assert forall|j: int| 0 <= j < i implies !p(#[trigger] t[j]) by {
                assert(t[j] == s[j]);
            }
            lemma_first_index(t, p, i);
        },
        None => {
            assert forall|j: int| 0 <= j < s.len() implies !p(#[trigger] t[j]) by {
                assert(t[j] == s[j]);
            }
            if p(x) {
                lemma_first_index(t, p, s.len() as int);
            } else {
                lemma_first_index(t, p, t.len() as int);
            }
        },
    }
}

/// Storing a default value reads back as the value already stored, or as the default
/// where the key had none.
pub proof fn lemma_put_default_read(
    settings: Seq<(Seq<char>, Seq<char>)>,
    k: Seq<char>,
    v: Seq<char>,
    q: Seq<char>,
)
    ensures
        setting_value(put_default(settings, k, v), q) == if setting_value(settings, q) is Some {
            setting_value(settings, q)
        } else if q == k {
            Some(v)
        } else {
            None::<Seq<char>>
        },
{
    if setting_value(settings, k) is None {
        lemma_first_index_push(settings, (k, v), key_is(q));
        lemma_first_index_found(settings, key_is(q));
        let t = settings.push((k, v));
        match first_index(settings, key_is(q)) {
            Some(i) => {
                assert(t[i] == settings[i]);
            },
            None => {},
        }
    }
}

/// The seven setting keys, in the order they are stored.
pub open spec fn setting_keys() -> Seq<Seq<char>> {
    seq![
        "idle_minutes"@,
        "launch_at_login"@,
        "show_widget"@,
        "font_family"@,
        "widget_height"@,
        "widget_x_offset"@,
        "widget_y_offset"@,
    ]
}

/// Every setting key has a value after the defaults are stored.
proof fn lemma_defaults_cover(settings: Seq<(Seq<char>, Seq<char>)>, q: Seq<char>)
    requires
        setting_keys().contains(q),
    ensures
        setting_value(with_default_settings(settings), q) is Some,
{
    let s1 = put_default(settings, "idle_minutes"@, "5"@);
    let s2 = put_default(s1, "launch_at_login"@, "false"@);
    let s3 = put_default(s2, "show_widget"@, "true"@);
    let s4 = put_default(s3, "font_family"@, "classic"@);
    let s5 = put_default(s4, "widget_height"@, "64"@);
    let s6 = put_default(s5, "widget_x_offset"@, "0"@);
    lemma_put_default_read(settings, "idle_minutes"@, "5"@, q);
    lemma_put_default_read(s1, "launch_at_login"@, "false"@, q);
    lemma_put_default_read(s2, "show_widget"@, "true"@, q);
    lemma_put_default_read(s3, "font_family"@, "classic"@, q);
    lemma_put_default_read(s4, "widget_height"@, "64"@, q);
    lemma_put_default_read(s5, "widget_x_offset"@, "0"@, q);
    lemma_put_default_read(s6, "widget_y_offset"@, "0"@, q);
    let i = choose|i: int| 0 <= i < 7 && setting_keys()[i] == q;
    assert(0 <= i < 7 && setting_keys()[i] == q);
}

/// Once the store is open, every setting can be read.
pub proof fn law_open_settings_readable(v: crate::store::StoreView)
    ensures
        opened(v) matches Some(o) ==> settings_from(o.settings) is Some,
{
    if let Some(o) = opened(v) {
        let base = o.settings;
        assert(setting_keys()[0] == "idle_minutes"@);
        assert(setting_keys()[1] == "launch_at_login"@);
        assert(setting_keys()[2] == "show_widget"@);
        assert(setting_keys()[3] == "font_family"@);
        assert(setting_keys()[4] == "widget_height"@);
        assert(setting_keys()[5] == "widget_x_offset"@);
        assert(setting_keys()[6] == "widget_y_offset"@);
        let r = crate::store::without_reserved(crate::store::seeded(v).unwrap());
        assert(base == with_default_settings(r.settings));
        lemma_defaults_cover(r.settings, "idle_minutes"@);
        lemma_defaults_cover(r.settings, "launch_at_login"@);
        lemma_defaults_cover(r.settings, "show_widget"@);
        lemma_defaults_cover(r.settings, "font_family"@);
        lemma_defaults_cover(r.settings, "widget_height"@);
        lemma_defaults_cover(r.settings, "widget_x_offset"@);
        lemma_defaults_cover(r.settings, "widget_y_offset"@);
    }
}

/// The settings of a store where none was set before: five idle minutes, no launch at
/// login, the widget shown, the classic font, a widget 64 pixels high at no offset.
pub open spec fn default_settings() -> SettingsView {
    SettingsView {
        idle_minutes: 5,
        launch_at_login: false,
        show_widget: true,
        font_family: "classic"@,
        widget_height: 64,
        widget_x_offset: 0,
        widget_y_offset: 0,
    }
}

/// Where no setting has a value, storing the defaults makes the settings read the default
/// settings.
pub proof fn law_default_settings(settings: Seq<(Seq<char>, Seq<char>)>)
    requires
        forall|i: int| 0 <= i < 7 ==> setting_value(settings, #[trigger] setting_keys()[i]) is None,
    ensures
        settings_from(with_default_settings(settings)) == Some(default_settings()),
{
    lemma_setting_keys_differ();
    let keys = setting_keys();
    assert(keys[0] == "idle_minutes"@);
    assert(keys[1] == "launch_at_login"@);
    assert(keys[2] == "show_widget"@);
    assert(keys[3] == "font_family"@);
    assert(keys[4] == "widget_height"@);
    assert(keys[5] == "widget_x_offset"@);
    assert(keys[6] == "widget_y_offset"@);
    let s1 = put_default(settings, "idle_minutes"@, "5"@);
    let s2 = put_default(s1, "launch_at_login"@, "false"@);
    let s3 = put_default(s2, "show_widget"@, "true"@);
    let s4 = put_default(s3, "font_family"@, "classic"@);
    let s5 = put_default(s4, "widget_height"@, "64"@);
    let s6 = put_default(s5, "widget_x_offset"@, "0"@);
    let s7 = put_default(s6, "widget_y_offset"@, "0"@);
    assert forall|j: int| 0 <= j < 7 implies {
        let q = #[trigger] keys[j];
        setting_value(s7, q) == Some(seq!["5"@, "false"@, "true"@, "classic"@, "64"@, "0"@, "0"@][j])
    } by {
        let q = keys[j];
        assert(setting_value(settings, q) is None);
        lemma_put_default_read(settings, "idle_minutes"@, "5"@, q);
        lemma_put_default_read(s1, "launch_at_login"@, "false"@, q);
        lemma_put_default_read(s2, "show_widget"@, "true"@, q);
        lemma_put_default_read(s3, "font_family"@, "classic"@, q);
        lemma_put_default_read(s4, "widget_height"@, "64"@, q);
        lemma_put_default_read(s5, "widget_x_offset"@, "0"@, q);
        lemma_put_default_read(s6, "widget_y_offset"@, "0"@, q);
    }
    assert(setting_value(s7, keys[0]) == Some("5"@));
    assert(setting_value(s7, keys[1]) == Some("false"@));
    assert(setting_value(s7, keys[2]) == Some("true"@));
    assert(setting_value(s7, keys[3]) == Some("classic"@));
    assert(setting_value(s7, keys[4]) == Some("64"@));
    assert(setting_value(s7, keys[5]) == Some("0"@));
    assert(setting_value(s7, keys[6]) == Some("0"@));
    reveal_strlit("5");
    reveal_strlit("64");
    reveal_strlit("0");
    reveal_strlit("true");
    reveal_strlit("false");
    reveal_strlit("classic");
    reveal_strlit("serif");
    reveal_strlit("sans");
    assert("5"@ =~= decimal(5));
    assert(decimal(64) =~= decimal(6).push('4'));
    assert("64"@ =~= decimal(64));
    assert("0"@ =~= signed_decimal(0));
    lemma_parse_u32_decimal(5);
    lemma_parse_u32_decimal(64);
    lemma_parse_i32_decimal(0);
    assert("false"@.len() != "true"@.len());
    assert("classic"@.len() != "serif"@.len());
    assert("classic"@.len() != "sans"@.len());
}

} // verus!
