//! A gif's database row, and the settings the library view is shown with.

use vstd::prelude::*;
use vstd::string::*;

verus! {

broadcast use vstd::string::group_string_axioms;

/// One row of the `gifs` table.
#[derive(Debug)]
pub struct Gif {
    pub id: i64,
    pub source_type: String,
    pub source_path: String,
    pub local_cache_path: Option<String>,
    pub title: Option<String>,
    pub added_at: String,
    pub file_hash: Option<String>,
    pub deleted_at: Option<String>,
    pub use_count: i64,
    pub width: i64,
    pub height: i64,
}

fn copy_text_option(o: &Option<String>) -> (r: Option<String>)
    ensures
        r == *o,
{
    match o {
        Some(s) => Some(s.clone()),
        None => None,
    }
}

impl Gif {
    /// A field-for-field copy.
    pub fn duplicate(&self) -> (r: Gif)
        ensures
            r == *self,
    {
        Gif {
            id: self.id,
            source_type: self.source_type.clone(),
            source_path: self.source_path.clone(),
            local_cache_path: copy_text_option(&self.local_cache_path),
            title: copy_text_option(&self.title),
            added_at: self.added_at.clone(),
            file_hash: copy_text_option(&self.file_hash),
            deleted_at: copy_text_option(&self.deleted_at),
            use_count: self.use_count,
            width: self.width,
            height: self.height,
        }
    }
}

/// How the library grid is ordered.
#[derive(Debug, Clone, Copy, PartialEq, Eq, Structural)]
pub enum SortMode {
    DateNewest,
    DateOldest,
    MostUsed,
    LeastUsed,
}

impl SortMode {
    /// The sort button's caption.
    pub fn label(self) -> (r: &'static str)
        ensures
            r@ == match self {
                SortMode::DateNewest => "Newest"@,
                SortMode::DateOldest => "Oldest"@,
                SortMode::MostUsed => "Most used"@,
                SortMode::LeastUsed => "Least used"@,
            },
    {
        match self {
            SortMode::DateNewest => "Newest",
            SortMode::DateOldest => "Oldest",
            SortMode::MostUsed => "Most used",
            SortMode::LeastUsed => "Least used",
        }
    }
}

/// The color theme, stored in the settings table.
#[derive(Debug, Clone, Copy, PartialEq, Eq, Structural)]
pub enum AppTheme {
    Light,
    Dark,
}

/// The theme a stored setting names: `"light"` is the light theme;
/// anything else, or no setting at all, the dark one.
pub open spec fn theme_named(value: Option<Seq<char>>) -> AppTheme {
    if value == Some("light"@) {
        AppTheme::Light
    } else {
        AppTheme::Dark
    }
}

/// The text a theme is stored as.
pub open spec fn theme_text(theme: AppTheme) -> Seq<char> {
    match theme {
        AppTheme::Light => "light"@,
        AppTheme::Dark => "dark"@,
    }
}

impl AppTheme {
    /// The theme a stored setting names: see [`theme_named`].
    pub fn from_setting(value: Option<&str>) -> (r: AppTheme)
        ensures
            r == theme_named(match value {
                Some(v) => Some(v@),
                None => None,
            }),
    {
        match value {
            Some(v) => {
                if String::from_str(v) == String::from_str("light") {
                    AppTheme::Light
                } else {
                    AppTheme::Dark
                }
            },
            None => AppTheme::Dark,
        }
    }

    /// The text a theme is stored as: see [`theme_text`].
    pub fn as_setting(self) -> (r: &'static str)
        ensures
            r@ == theme_text(self),
    {
        match self {
            AppTheme::Light => "light",
            AppTheme::Dark => "dark",
        }
    }
}

/// A theme's colors, each as `0xRRGGBB`.
#[derive(Debug, Clone, Copy, PartialEq, Eq, Structural)]
pub struct Palette {
    pub background: u32,
    pub text: u32,
    pub primary: u32,
    pub success: u32,
    pub warning: u32,
    pub danger: u32,
}

impl AppTheme {
    /// The theme's colors: dark backgrounds a few shades apart rather than
    /// one flat gray, and a blurple accent.
    pub fn palette(self) -> (r: Palette)
        ensures
            r == match self {
                AppTheme::Dark => Palette {
                    background: 0x31_33_38,
                    text: 0xdb_de_e1,
                    primary: 0x58_65_f2,
                    success: 0x23_a5_5a,
                    warning: 0xf0_b2_32,
                    danger: 0xed_42_45,
                },
                AppTheme::Light => Palette {
                    background: 0xff_ff_ff,
                    text: 0x06_06_07,
                    primary: 0x58_65_f2,
                    success: 0x23_a5_5a,
                    warning: 0xa9_7c_17,
                    danger: 0xda_37_3c,
                },
            },
    {
        match self {
            AppTheme::Dark => Palette {
                background: 0x31_33_38,
                text: 0xdb_de_e1,
                primary: 0x58_65_f2,
                success: 0x23_a5_5a,
                warning: 0xf0_b2_32,
                danger: 0xed_42_45,
            },
            AppTheme::Light => Palette {
                background: 0xff_ff_ff,
                text: 0x06_06_07,
                primary: 0x58_65_f2,
                success: 0x23_a5_5a,
                warning: 0xa9_7c_17,
                danger: 0xda_37_3c,
            },
        }
    }

    /// The name the theme is registered under.
    pub fn theme_name(self) -> (r: &'static str)
        ensures
            r@ == match self {
                AppTheme::Dark => "GifVault Dark"@,
                AppTheme::Light => "GifVault Light"@,
            },
    {
        match self {
            AppTheme::Dark => "GifVault Dark",
            AppTheme::Light => "GifVault Light",
        }
    }

    /// The background of recessed panels such as the sidebar, a couple of
    /// shades apart from the main content, as `0xRRGGBB`.
    pub fn recessed_background(self) -> (r: u32)
        ensures
            r == match self {
                AppTheme::Dark => 0x2b_2d_31u32,
                AppTheme::Light => 0xf2_f3_f5u32,
            },
    {
        match self {
            AppTheme::Dark => 0x2b_2d_31,
            AppTheme::Light => 0xf2_f3_f5,
        }
    }
}

/// The screens of the app.
#[derive(Debug, Clone, Copy, PartialEq, Eq, Structural)]
pub enum ViewMode {
    Library,
    Trash,
    Stats,
    Settings,
}

/// Which kind of media the library grid shows.
#[derive(Debug, Clone, Copy, PartialEq, Eq, Structural)]
pub enum MediaFilter {
    All,
    /// Animated gifs only.
    Gifs,
    /// Still images (png, jpeg, webp) only.
    Images,
}

impl MediaFilter {
    /// The filter button's caption.
    pub fn label(self) -> (r: &'static str)
        ensures
            r@ == match self {
                MediaFilter::All => "All"@,
                MediaFilter::Gifs => "Gifs"@,
                MediaFilter::Images => "Images"@,
            },
    {
        match self {
            MediaFilter::All => "All",
            MediaFilter::Gifs => "Gifs",
            MediaFilter::Images => "Images",
        }
    }
}

/// Whether importing a local file copies it into the library folder or
/// moves it there.
#[derive(Debug, Clone, Copy, PartialEq, Eq, Structural)]
pub enum ImportMode {
    Copy,
    Move,
}

/// A stored theme reads back as itself.
pub proof fn lemma_theme_setting_roundtrip(theme: AppTheme)
    ensures
        theme_named(Some(theme_text(theme))) == theme,
{
    reveal_strlit("light");
    reveal_strlit("dark");
    assert("light"@.len() == 5);
    assert("dark"@.len() == 4);
}

} // verus!
