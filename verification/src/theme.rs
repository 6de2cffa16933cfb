//! The window's theme, from the desktop's colour scheme.

use vstd::prelude::*;

verus! {

/// A theme of the window.
#[derive(Debug, Clone, Copy, PartialEq, Eq, Structural)]
pub enum Theme {
    CatppuccinLatte,
    CatppuccinMocha,
}

/// The theme without a known preference: light.
pub const FALLBACK: Theme = Theme::CatppuccinLatte;

/// A value as the desktop portal hands it out: a number, or a variant around a
/// further value.
#[derive(Debug)]
pub enum Setting {
    U32(u32),
    Variant(Box<Setting>),
    Other,
}

/// The number inside a setting, however deep.
pub open spec fn number_in(v: Setting) -> Option<u32>
    decreases v,
{
    match v {
        Setting::U32(n) => Some(n),
        Setting::Variant(inner) => number_in(*inner),
        Setting::Other => None,
    }
}

/// The number inside a setting, however deep.
pub fn unwrap_u32(v: &Setting) -> (r: Option<u32>)
    ensures
        r == number_in(*v),
    decreases v,
{
    match v {
        Setting::U32(n) => Some(*n),
        Setting::Variant(inner) => unwrap_u32(&**inner),
        Setting::Other => None,
    }
}

/// The theme for a colour scheme: 1 prefers dark, 2 prefers light.
pub open spec fn scheme_theme(scheme: u32) -> Theme {
    if scheme == 1 {
        Theme::CatppuccinMocha
    } else if scheme == 2 {
        Theme::CatppuccinLatte
    } else {
        FALLBACK
    }
}

/// The theme for a colour scheme.
pub fn theme_from_scheme(scheme: u32) -> (r: Theme)
    ensures
        r == scheme_theme(scheme),
{
    match scheme {
        1 => Theme::CatppuccinMocha,
        2 => Theme::CatppuccinLatte,
        _ => FALLBACK,
    }
}

/// The first reply that holds a number, of those to the newer and the older way
/// of asking.
pub open spec fn scheme_of(read_one: Option<Setting>, read: Option<Setting>) -> Option<u32> {
    match read_one {
        Some(v) if number_in(v) is Some => number_in(v),
        _ => match read {
            Some(v) => number_in(v),
            None => None,
        },
    }
}

/// The colour scheme, from the replies to the newer and the older way of asking.
pub fn read_scheme(read_one: &Option<Setting>, read: &Option<Setting>) -> (r: Option<u32>)
    ensures
        r == scheme_of(*read_one, *read),
{
    if let Some(v) = read_one {
        if let Some(n) = unwrap_u32(v) {
            return Some(n);
        }
    }
    match read {
        Some(v) => unwrap_u32(v),
        None => None,
    }
}

/// The theme for the replies, where they hold a scheme.
pub fn detect(read_one: &Option<Setting>, read: &Option<Setting>) -> (r: Option<Theme>)
    ensures
        r == (match scheme_of(*read_one, *read) {
            Some(n) => Some(scheme_theme(n)),
            None => None,
        }),
{
    match read_scheme(read_one, read) {
        Some(n) => Some(theme_from_scheme(n)),
        None => None,
    }
}

/// A scheme is found at any depth of wrapping.
pub proof fn wrapping_keeps_the_number(v: Setting)
    ensures
        number_in(Setting::Variant(Box::new(v))) == number_in(v),
{
}

/// A preference for dark gives the dark theme, one for light the light one, and any
/// other the fallback, which is light.
pub proof fn scheme_gives_the_theme(scheme: u32, r: Theme)
    requires
        call_ensures(theme_from_scheme, (scheme,), r),
    ensures
        r == Theme::CatppuccinMocha <==> scheme == 1,
        r == Theme::CatppuccinLatte <==> scheme != 1,
        r == scheme_theme(scheme),
{
}

/// A number is found, and nothing else is.
pub proof fn numbers_are_found(n: u32)
    ensures
        number_in(Setting::U32(n)) == Some(n),
        number_in(Setting::Other) is None,
{
}

/// The newer reply counts where it holds a number, or else the older one; without
/// either there is no theme.
pub proof fn newer_reply_comes_first(
    read_one: Option<Setting>,
    read: Option<Setting>,
    scheme: Option<u32>,
    theme: Option<Theme>,
)
    requires
        call_ensures(read_scheme, (&read_one, &read), scheme),
        call_ensures(detect, (&read_one, &read), theme),
    ensures
        read_one is Some && number_in(read_one->0) is Some ==> scheme == number_in(read_one->0),
        (read_one is None || number_in(read_one->0) is None) && read is Some ==> scheme
            == number_in(read->0),
        (read_one is None || number_in(read_one->0) is None) && read is None ==> scheme is None,
        theme is Some <==> scheme is Some,
        scheme matches Some(n) ==> theme == Some(
            if n == 1 {
                Theme::CatppuccinMocha
            } else {
                Theme::CatppuccinLatte
            },
        ),
{
}

/// A number is unwrapped at any depth.
pub proof fn number_is_unwrapped(v: Setting, r: Option<u32>)
    requires
        call_ensures(unwrap_u32, (&v,), r),
    ensures
        v matches Setting::U32(n) ==> r == Some(n),
        v is Other ==> r is None,
        v matches Setting::Variant(inner) ==> r == number_in(*inner),
{
}

} // verus!
