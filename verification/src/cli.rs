//! Plain data for the command-line surface.  The binary around the
//! library decorates copies of these with its argument-parsing
//! derives; here they are bare values.
use vstd::prelude::*;

verus! {

/// Arguments for adding one fully specified feed.
pub struct AddFeedArgs {
    pub slug: String,
    pub url: String,
    pub author: String,
    pub tier: String,
    pub config_path: String,
}

/// Arguments for analyzing configured feeds.
pub struct AnalyzeArgs {
    pub config_path: String,
    pub max_articles: usize,
}

/// Arguments for exporting feeds as OPML.
pub struct ExportArgs {
    pub config_path: String,
    pub output_path: String,
}

/// Arguments for fetching all configured feeds.
pub struct FetchArgs {
    pub config_path: String,
}

/// Arguments for finding a feed behind a site address.
pub struct FindFeedArgs {
    pub base_url: String,
}

/// Arguments for importing feeds from OPML.
pub struct ImportArgs {
    pub input_path: String,
    pub tier: String,
    pub config_path: String,
}

/// Arguments for writing a starter configuration.
pub struct InitArgs {
    pub config_path: String,
    pub interactive: bool,
}

/// Arguments for searching indexed articles.
pub struct SearchArgs {
    pub query: String,
    pub limit: usize,
}

/// Arguments for serving the generated site.
pub struct ServeArgs {
    pub port: u16,
    pub host: String,
    pub config_path: String,
}

/// Arguments for searching the feed registry.
pub struct FeedSearchArgs {
    pub query: String,
    pub tag: Option<String>,
}

/// Arguments for adding a registry feed by slug.
pub struct AddArgs {
    pub slug: String,
    pub tier: Option<String>,
}

/// Arguments for listing configured feeds.
pub struct ListArgs {
    pub tier: Option<String>,
}

/// Arguments for showing one registry feed.
pub struct InfoArgs {
    pub slug: String,
}

/// Arguments for changing one configured feed.
pub struct ConfigureArgs {
    pub slug: String,
    pub tier: Option<String>,
    pub tags: Option<String>,
}

/// Arguments for removing one configured feed.
pub struct RemoveArgs {
    pub slug: String,
}

/// The feed-management subcommands.
pub enum FeedsCommands {
    Search(FeedSearchArgs),
    Add(AddArgs),
    List(ListArgs),
    Info(InfoArgs),
    Configure(ConfigureArgs),
    Remove(RemoveArgs),
}

/// Arguments for the feed-management command.
pub struct FeedsArgs {
    pub command: FeedsCommands,
    pub config_path: String,
}

} // verus!
