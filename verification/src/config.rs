//! The daemon's settings and the filter that keeps stale items out.

use vstd::prelude::*;
use crate::error::Error;
use crate::media::MediaEntry;
use crate::time::{utc_now, Date, Timestamp};

verus! {

/// Seconds in thirty days, the age limit of a filter that was not set up.
pub const DEFAULT_MAX_AGE: i64 = 2_592_000;

/// Rules that exclude an item by the time it was published. An item
/// without such a time is never excluded.
#[derive(Debug, Clone, Copy)]
pub struct DownloadFilter {
    /// The longest age, in seconds, that an item may have.
    pub max_age: Option<i64>,
    /// Items published after the start of this day are excluded.
    pub before: Option<Date>,
    /// Items published before the start of this day are excluded.
    pub after: Option<Date>,
}

impl DownloadFilter {
    /// The two rules that look at the calendar: published after the start
    /// of `before`, or before the start of `after`.
    pub open spec fn excludes_by_date(&self, published: Option<Timestamp>) -> bool {
        published matches Some(p) && {
            ||| (self.before matches Some(day) && p.is_after(day.start()))
            ||| (self.after matches Some(day) && day.start().is_after(p))
        }
    }

    /// The rule that looks at the clock: published more than `max_age`
    /// seconds before `now`.
    pub open spec fn excludes_by_age(&self, published: Option<Timestamp>, now: Timestamp) -> bool {
        published matches Some(p) && self.max_age matches Some(limit) && p.is_older_than(limit, now)
    }

    /// Whether an item published at `published` is excluded at the time `now`.
    pub open spec fn excludes(&self, published: Option<Timestamp>, now: Timestamp) -> bool {
        self.excludes_by_date(published) || self.excludes_by_age(published, now)
    }

    /// Decides by the calendar rules alone whether `entry` is excluded.
    pub fn filter_by_date(&self, entry: &MediaEntry) -> (excluded: bool)
        ensures
            excluded == self.excludes_by_date(entry.published),
    {
        match entry.published {
            None => false,
            Some(published) => {
                if let Some(day) = self.before {
                    if published.after(&day.midnight()) {
                        return true;
                    }
                }
                if let Some(day) = self.after {
                    if day.midnight().after(&published) {
                        return true;
                    }
                }
                false
            },
        }
    }

    /// Decides at a given time whether `entry` is excluded. The decision is a
    /// function of the filter, the entry's time of publication and `now`.
    pub fn filter_at(&self, entry: &MediaEntry, now: Timestamp) -> (excluded: bool)
        ensures
            excluded == self.excludes(entry.published, now),
    {
        if self.filter_by_date(entry) {
            return true;
        }
        match (entry.published, self.max_age) {
            (Some(published), Some(limit)) => published.older_than(limit, &now),
            _ => false,
        }
    }

    /// Decides whether `entry` is excluded at the time the clock shows. What
    /// the calendar rules settle does not depend on the clock; the rest is
    /// the decision of [`Self::filter_at`] at some instant. The clock is
    /// read only where the decision hangs on it: for an item with a time of
    /// publication that the calendar rules let pass, under an age limit.
    pub fn filter(&self, entry: &MediaEntry) -> (excluded: bool)
        ensures
            exists|now: Timestamp| excluded == #[trigger] self.excludes(entry.published, now),
            self.excludes_by_date(entry.published) ==> excluded,
            entry.published is None ==> !excluded,
            self.max_age is None ==> excluded == self.excludes_by_date(entry.published),
    {
        if self.filter_by_date(entry) {
            assert(self.excludes(entry.published, Timestamp { secs: 0, nanos: 0 }));
            return true;
        }
        match (entry.published, self.max_age) {
            (Some(published), Some(limit)) => {
                let now = utc_now();
                let excluded = published.older_than(limit, &now);
                assert(excluded == self.excludes(entry.published, now));
                excluded
            },
            _ => {
                assert(!self.excludes(entry.published, Timestamp { secs: 0, nanos: 0 }));
                false
            },
        }
    }

    /// Whether some decision of this filter hangs on the clock: it does
    /// under an age limit.
    pub fn needs_clock(&self) -> (needed: bool)
        ensures
            needed == (self.max_age is Some),
    {
        self.max_age.is_some()
    }
}

impl Default for DownloadFilter {
    /// A filter with an age limit of thirty days and no calendar rule.
    fn default() -> (filter: Self)
        ensures
            filter.max_age == Some(DEFAULT_MAX_AGE),
            filter.before is None,
            filter.after is None,
    {
        DownloadFilter { max_age: Some(DEFAULT_MAX_AGE), before: None, after: None }
    }
}

/// The settings that can be read from the configuration file.
#[derive(Debug)]
pub struct ConfigData {
    /// The address the admin interface listens on, as written in the file.
    pub address: String,
    pub port: u16,
    /// Seconds between two crawls.
    pub sync_interval: u64,
    /// How many downloads may run at once.
    pub parallel_downloads: u64,
    /// The directory that downloads are written to.
    pub media_dir: String,
    pub download_filter: Option<DownloadFilter>,
}

impl ConfigData {
    /// The settings of a fresh installation that keeps its media in
    /// `media_dir`.
    pub fn with_media_dir(media_dir: String) -> (data: ConfigData)
        ensures
            data.address@ == "0.0.0.0"@,
            data.port == 9193,
            data.sync_interval == 900,
            data.parallel_downloads == 1,
            data.media_dir == media_dir,
            data.download_filter matches Some(f) && f.max_age == Some(DEFAULT_MAX_AGE)
                && f.before is None && f.after is None,
    {
        ConfigData {
            address: String::from_str("0.0.0.0"),
            port: 9193,
            sync_interval: 900,
            parallel_downloads: 1,
            media_dir,
            download_filter: Some(DownloadFilter::default()),
        }
    }
}

impl Clone for ConfigData {
    fn clone(&self) -> (copy: Self)
        ensures
            copy == *self,
    {
        ConfigData {
            address: self.address.clone(),
            port: self.port,
            sync_interval: self.sync_interval,
            parallel_downloads: self.parallel_downloads,
            media_dir: self.media_dir.clone(),
            download_filter: self.download_filter,
        }
    }
}

/// The settings in use, and where they came from.
pub struct Config {
    /// The configuration file.
    pub path: String,
    /// Whether the settings were read from the environment, not from a file.
    pub from_env: bool,
    pub data: ConfigData,
}

impl Config {
    /// Starts from the settings that were read, from the file at `path` or,
    /// where `from_env` says so, from the environment. Settings that could
    /// not be read yield no configuration.
    pub fn load(path: String, from_env: bool, loaded: Result<ConfigData, Error>) -> (config: Result<
        Config,
        Error,
    >)
        ensures
            loaded matches Ok(data) ==> (config matches Ok(c) && c.data == data && c.from_env
                == from_env && c.path == path),
            loaded matches Err(e) ==> config matches Err(f) && f == e,
    {
        match loaded {
            Ok(data) => Ok(Config { path, from_env, data }),
            Err(e) => Err(e),
        }
    }

    /// Whether a change of the configuration file concerns these settings:
    /// it does unless they came from the environment.
    pub fn reads_file(&self) -> (reads: bool)
        ensures
            reads == !self.from_env,
    {
        !self.from_env
    }

    /// Takes over the settings that were read again from the file. Settings
    /// from the environment are never replaced by a file, and settings that
    /// could not be read change nothing.
    pub fn reload(&mut self, loaded: Result<ConfigData, Error>) -> (done: Result<(), Error>)
        ensures
            final(self).path == old(self).path,
            final(self).from_env == old(self).from_env,
            old(self).from_env ==> done is Ok && final(self).data == old(self).data,
            !old(self).from_env ==> {
                &&& loaded matches Ok(data) ==> done is Ok && final(self).data == data
                &&& loaded matches Err(e) ==> (done matches Err(f) && f == e && final(self).data
                    == old(self).data)
            },
    {
        if self.from_env {
            return Ok(());
        }
        match loaded {
            Ok(data) => {
                self.data = data;
                Ok(())
            },
            Err(e) => Err(e),
        }
    }

    /// Puts `data` in place of the settings, if they could be written to
    /// the file; `saved` tells whether they could. Settings that could not
    /// be written change nothing: the earlier ones stay.
    pub fn set(&mut self, data: ConfigData, saved: Result<(), Error>) -> (done: Result<(), Error>)
        ensures
            final(self).path == old(self).path,
            final(self).from_env == old(self).from_env,
            saved is Ok ==> done is Ok && final(self).data == data,
            saved matches Err(e) ==> {
                &&& done matches Err(f) && f == e
                &&& final(self).data == old(self).data
            },
    {
        match saved {
            Ok(()) => {
                self.data = data;
                Ok(())
            },
            Err(e) => Err(e),
        }
    }
}

} // verus!
