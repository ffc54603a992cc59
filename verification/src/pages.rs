//! The static navigation pages: their identity, title and description.
//! Rendering belongs to the embedding application.

use vstd::prelude::*;
use vstd::string::*;

verus! {

/// The discover page.
#[derive(Debug, Clone, Copy, PartialEq, Eq, Structural)]
pub struct DiscoverPage;

/// The favorites page.
#[derive(Debug, Clone, Copy, PartialEq, Eq, Structural)]
pub struct FavoritesPage;

/// The liked-songs page.
#[derive(Debug, Clone, Copy, PartialEq, Eq, Structural)]
pub struct LikedSongsPage;

impl DiscoverPage {
    /// A fresh discover page.
    pub fn new() -> (r: Self)
        ensures
            r == DiscoverPage,
    {
        DiscoverPage
    }

    /// The page title.
    pub fn title() -> (r: &'static str)
        ensures
            r@ == "发现音乐"@,
    {
        "发现音乐"
    }

    /// The page description.
    pub fn description() -> (r: &'static str)
        ensures
            r@ == "探索新歌、排行榜、歌单和更多内容"@,
    {
        "探索新歌、排行榜、歌单和更多内容"
    }
}

impl FavoritesPage {
    /// A fresh favorites page.
    pub fn new() -> (r: Self)
        ensures
            r == FavoritesPage,
    {
        FavoritesPage
    }

    /// The page title.
    pub fn title() -> (r: &'static str)
        ensures
            r@ == "我的收藏"@,
    {
        "我的收藏"
    }

    /// The page description.
    pub fn description() -> (r: &'static str)
        ensures
            r@ == "收藏的歌单、专辑和艺术家"@,
    {
        "收藏的歌单、专辑和艺术家"
    }
}

impl LikedSongsPage {
    /// A fresh liked-songs page.
    pub fn new() -> (r: Self)
        ensures
            r == LikedSongsPage,
    {
        LikedSongsPage
    }

    /// The page title.
    pub fn title() -> (r: &'static str)
        ensures
            r@ == "我喜欢的音乐"@,
    {
        "我喜欢的音乐"
    }

    /// The page description.
    pub fn description() -> (r: &'static str)
        ensures
            r@ == "查看所有你喜欢的歌曲"@,
    {
        "查看所有你喜欢的歌曲"
    }
}

impl Default for DiscoverPage {
    fn default() -> (r: Self)
        ensures
            r == DiscoverPage,
    {
        DiscoverPage
    }
}

impl Default for FavoritesPage {
    fn default() -> (r: Self)
        ensures
            r == FavoritesPage,
    {
        FavoritesPage
    }
}

impl Default for LikedSongsPage {
    fn default() -> (r: Self)
        ensures
            r == LikedSongsPage,
    {
        LikedSongsPage
    }
}

} // verus!
