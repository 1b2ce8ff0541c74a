//! The directives of the gzip modules.

use vstd::prelude::*;
use crate::ast::{GzipProxied, GzipStatic, Item, ItemView};
use crate::error::ParseError;
use crate::helpers::{
    family_agrees, names_view, no_names, semi_at, semi_spec, toggle_at, toggle_spec, unexpected,
    unexpected_at, word_at, word_index, Parsed,
};
use crate::tokenizer::{Lexed, TokenList};

verus! {

/// The arguments that `gzip_static` takes.
pub open spec fn static_words() -> Seq<Seq<char>> {
    seq!["on"@, "off"@, "always"@]
}

/// The arguments that `gzip_proxied` takes.
pub open spec fn proxied_words() -> Seq<Seq<char>> {
    seq![
        "off"@,
        "expired"@,
        "no-cache"@,
        "no-store"@,
        "private"@,
        "no_last_modified"@,
        "no_etag"@,
        "auth"@,
        "any"@,
    ]
}

/// The setting that the word `k` of `static_words` stands for.
pub open spec fn static_of(k: int) -> GzipStatic {
    if k == 0 {
        GzipStatic::On
    } else if k == 1 {
        GzipStatic::Off
    } else {
        GzipStatic::Always
    }
}

/// The setting that the word `k` of `proxied_words` stands for.
pub open spec fn proxied_of(k: int) -> GzipProxied {
    if k == 0 {
        GzipProxied::Off
    } else if k == 1 {
        GzipProxied::Expired
    } else if k == 2 {
        GzipProxied::NoCache
    } else if k == 3 {
        GzipProxied::NoStore
    } else if k == 4 {
        GzipProxied::Private
    } else if k == 5 {
        GzipProxied::NoLastModified
    } else if k == 6 {
        GzipProxied::NoEtag
    } else if k == 7 {
        GzipProxied::Auth
    } else {
        GzipProxied::Any
    }
}

/// `gzip_static on|off|always;`
pub open spec fn gzip_static_spec(t: Lexed, kw: int) -> Parsed<ItemView> {
    match word_index(t, kw + 1, static_words()) {
        None => Err(unexpected_at(t, kw + 1, static_words())),
        Some(k) => match semi_spec(t, kw + 2, Seq::empty()) {
            Ok(j) => Ok((ItemView::GzipStatic(static_of(k)), j)),
            Err(e) => Err(e),
        },
    }
}

/// The settings that the tokens from `i` on stand for, added to `acc`, and
/// the index of the first token that stands for none.
pub open spec fn proxied_run(t: Lexed, i: int, acc: Seq<GzipProxied>) -> (Seq<GzipProxied>, int)
    decreases t.tokens.len() - i,
{
    match word_index(t, i, proxied_words()) {
        Some(k) => proxied_run(t, i + 1, acc.push(proxied_of(k))),
        None => (acc, i),
    }
}

/// `gzip_proxied` with one setting or more.
pub open spec fn gzip_proxied_spec(t: Lexed, kw: int) -> Parsed<ItemView> {
    let run = proxied_run(t, kw + 1, Seq::empty());
    if run.0.len() == 0 {
        Err(unexpected_at(t, kw + 1, proxied_words()))
    } else {
        match semi_spec(t, run.1, proxied_words()) {
            Ok(j) => Ok((ItemView::GzipProxied(run.0), j)),
            Err(e) => Err(e),
        }
    }
}

/// What the gzip modules make of the directive that starts at `kw`.
pub open spec fn directives_spec(t: Lexed, kw: int) -> Option<Parsed<ItemView>> {
    let name = t.text(kw);
    if name == "gzip"@ {
        Some(
            match toggle_spec(t, kw + 1) {
                Ok((on, j)) => Ok((ItemView::Gzip(on), j)),
                Err(e) => Err(e),
            },
        )
    } else if name == "gzip_static"@ {
        Some(gzip_static_spec(t, kw))
    } else if name == "gzip_proxied"@ {
        Some(gzip_proxied_spec(t, kw))
    } else {
        None
    }
}

impl GzipStatic {
    /// The place of the setting in the list of its words.
    pub open spec fn index(self) -> int {
        match self {
            GzipStatic::On => 0,
            GzipStatic::Off => 1,
            GzipStatic::Always => 2,
        }
    }

    /// The setting as it is written.
    pub fn as_str(&self) -> (r: &'static str)
        ensures
            r@ == static_words()[self.index()],
            static_of(self.index()) == *self,
    {
        match self {
            GzipStatic::On => "on",
            GzipStatic::Off => "off",
            GzipStatic::Always => "always",
        }
    }

    /// The setting that the word `k` of its list stands for.
    pub fn from_index(k: usize) -> (r: GzipStatic)
        ensures
            r == static_of(k as int),
    {
        if k == 0 {
            GzipStatic::On
        } else if k == 1 {
            GzipStatic::Off
        } else {
            GzipStatic::Always
        }
    }

    /// The words that stand for the settings.
    pub fn words() -> (r: Vec<&'static str>)
        ensures
            names_view(r@) == static_words(),
    {
        let r = vec!["on", "off", "always"];
        assert(names_view(r@) =~= static_words());
        r
    }
}

impl GzipProxied {
    /// The place of the setting in the list of its words.
    pub open spec fn index(self) -> int {
        match self {
            GzipProxied::Off => 0,
            GzipProxied::Expired => 1,
            GzipProxied::NoCache => 2,
            GzipProxied::NoStore => 3,
            GzipProxied::Private => 4,
            GzipProxied::NoLastModified => 5,
            GzipProxied::NoEtag => 6,
            GzipProxied::Auth => 7,
            GzipProxied::Any => 8,
        }
    }

    /// The setting as it is written.
    pub fn as_str(&self) -> (r: &'static str)
        ensures
            r@ == proxied_words()[self.index()],
            proxied_of(self.index()) == *self,
    {
        match self {
            GzipProxied::Off => "off",
            GzipProxied::Expired => "expired",
            GzipProxied::NoCache => "no-cache",
            GzipProxied::NoStore => "no-store",
            GzipProxied::Private => "private",
            GzipProxied::NoLastModified => "no_last_modified",
            GzipProxied::NoEtag => "no_etag",
            GzipProxied::Auth => "auth",
            GzipProxied::Any => "any",
        }
    }

    /// The setting that the word `k` of its list stands for.
    pub fn from_index(k: usize) -> (r: GzipProxied)
        ensures
            r == proxied_of(k as int),
    {
        if k == 0 {
            GzipProxied::Off
        } else if k == 1 {
            GzipProxied::Expired
        } else if k == 2 {
            GzipProxied::NoCache
        } else if k == 3 {
            GzipProxied::NoStore
        } else if k == 4 {
            GzipProxied::Private
        } else if k == 5 {
            GzipProxied::NoLastModified
        } else if k == 6 {
            GzipProxied::NoEtag
        } else if k == 7 {
            GzipProxied::Auth
        } else {
            GzipProxied::Any
        }
    }

    /// The words that stand for the settings.
    pub fn words() -> (r: Vec<&'static str>)
        ensures
            names_view(r@) == proxied_words(),
    {
        let r = vec![
            "off",
            "expired",
            "no-cache",
            "no-store",
            "private",
            "no_last_modified",
            "no_etag",
            "auth",
            "any",
        ];
        assert(names_view(r@) =~= proxied_words());
        r
    }
}

/// Reads `gzip_static on|off|always;`.
pub fn gzip_static(t: &TokenList, kw: usize) -> (r: Result<(Item, usize), ParseError>)
    requires
        kw < t.tokens.len(),
    ensures
        family_agrees(t, kw, Some(r), Some(gzip_static_spec(t@, kw as int))),
{
    let words = GzipStatic::words();
    match word_at(t, kw + 1, &words) {
        None => Err(unexpected(t, kw + 1, &words)),
        Some(k) => match semi_at(t, kw + 2, no_names()) {
            Ok(j) => Ok((Item::GzipStatic(GzipStatic::from_index(k)), j)),
            Err(e) => Err(e),
        },
    }
}

/// Reads `gzip_proxied` with its settings.
pub fn gzip_proxied(t: &TokenList, kw: usize) -> (r: Result<(Item, usize), ParseError>)
    requires
        kw < t.tokens.len(),
    ensures
        family_agrees(t, kw, Some(r), Some(gzip_proxied_spec(t@, kw as int))),
{
    let words = GzipProxied::words();
    let mut flags: Vec<GzipProxied> = Vec::new();
    let mut i: usize = kw + 1;
    loop
        invariant
            kw < i <= t.tokens.len(),
            names_view(words@) == proxied_words(),
            i - (kw + 1) == flags.len(),
            proxied_run(t@, kw + 1, Seq::empty()) == proxied_run(t@, i as int, flags@),
        ensures
            kw < i <= t.tokens.len(),
            names_view(words@) == proxied_words(),
            proxied_run(t@, kw + 1, Seq::empty()) == (flags@, i as int),
        decreases t.tokens.len() - i,
    {
        match word_at(t, i, &words) {
            Some(k) => {
                flags.push(GzipProxied::from_index(k));
                i += 1;
            },
            None => {
                break ;
            },
        }
    }
    if flags.len() == 0 {
        Err(unexpected(t, kw + 1, &words))
    } else {
        match semi_at(t, i, words) {
            Ok(j) => Ok((Item::GzipProxied(flags), j)),
            Err(e) => Err(e),
        }
    }
}

/// Reads a directive of the gzip modules whose name stands at `kw`.
pub fn directives(t: &TokenList, kw: usize) -> (r: Option<Result<(Item, usize), ParseError>>)
    requires
        kw < t.tokens.len(),
    ensures
        family_agrees(t, kw, r, directives_spec(t@, kw as int)),
{
    let name = t.text(kw);
    if crate::text::str_eq(name, "gzip") {
        Some(
            match toggle_at(t, kw + 1) {
                Ok((on, j)) => Ok((Item::Gzip(on), j)),
                Err(e) => Err(e),
            },
        )
    } else if crate::text::str_eq(name, "gzip_static") {
        Some(gzip_static(t, kw))
    } else if crate::text::str_eq(name, "gzip_proxied") {
        Some(gzip_proxied(t, kw))
    } else {
        None
    }
}

} // verus!
