//! What is handed to the download tool, what its answer means, how the
//! entries of a parsed feed become items, and how the results of a crawl
//! are gathered.

use vstd::prelude::*;
use crate::error::Error;
use crate::media::{item_of, FeedEntry, FeedEntryView, Media, MediaEntry, MediaEntryView};
use crate::source::SourceType;
use crate::text::{strs, texts};
use crate::time::utc_now;

verus! {

/// The program that downloads.
pub const DOWNLOAD_TOOL: &'static str = "yt-dlp";

/// At most this many sources are fetched at the same time during a crawl.
pub const CRAWL_CONCURRENCY: usize = 128;

/// The arguments that select format and codec for a kind of media.
pub open spec fn format_args(kind: SourceType) -> Seq<Seq<char>> {
    match kind {
        SourceType::Video => seq![
            "-f"@,
            "(bv[vcodec^=vp9][height<=1080]/bv[height<=1080]/bv)+(ba[acodec=opus]/ba/b)"@,
            "--merge-output-format"@,
            "mkv"@,
        ],
        SourceType::Audio => seq![
            "-f"@,
            "ba[acodec=opus]/ba/b"@,
            "--extract-audio"@,
            "--audio-format"@,
            "opus"@,
        ],
    }
}

/// The arguments that select format and codec for a kind of media: the best
/// video up to 1080 lines merged into a Matroska file, or the best audio
/// extracted as Opus.
pub fn dl_format(dl_type: SourceType) -> (args: Vec<&'static str>)
    ensures
        strs(args@) == format_args(dl_type),
{
    let args = match dl_type {
        SourceType::Video => {
            vec![
                "-f",
                "(bv[vcodec^=vp9][height<=1080]/bv[height<=1080]/bv)+(ba[acodec=opus]/ba/b)",
                "--merge-output-format",
                "mkv",
            ]
        },
        SourceType::Audio => vec![
            "-f",
            "ba[acodec=opus]/ba/b",
            "--extract-audio",
            "--audio-format",
            "opus",
        ],
    };
    assert(strs(args@) =~= format_args(dl_type));
    args
}

/// Where a download is written: below `dir`, in a directory named after the
/// artist, channel or uploader, in a file named after date and title.
pub open spec fn output_template(dir: Seq<char>) -> Seq<char> {
    dir
        + "/%(artist,channel,uploader|Unkown)s/%(release_date>%Y%m%d,upload_date>%Y%m%d)s-%(fulltitle)s.%(ext)s"@
}

/// The arguments of one download: the format selection of the kind, the
/// options that embed thumbnail and metadata and print the result as JSON,
/// the output template below `dir`, and last the link.
pub open spec fn command_args(dir: Seq<char>, kind: SourceType, link: Seq<char>) -> Seq<Seq<char>> {
    format_args(kind) + seq![
        "--embed-thumbnail"@,
        "--embed-metadata"@,
        "--embed-info-json"@,
        "--print"@,
        "%()j"@,
        "--no-simulate"@,
        "--no-progress"@,
        "-o"@,
        output_template(dir),
        link,
    ]
}

/// The arguments with which the download tool is run to fetch `entry` into
/// the directory `dir`.
pub fn download_command(dir: &str, entry: &MediaEntry) -> (args: Vec<String>)
    ensures
        texts(args@) == command_args(dir@, entry.kind, entry.link@),
{
    let format = dl_format(entry.kind);
    let mut args: Vec<String> = Vec::new();
    let mut i: usize = 0;
    while i < format.len()
        invariant
            i <= format@.len(),
            texts(args@) == strs(format@).take(i as int),
        decreases format@.len() - i,
    {
        args.push(String::from_str(format[i]));
        assert(texts(args@) =~= strs(format@).take(i as int).push(format@[i as int]@));
        assert(strs(format@).take(i + 1) =~= strs(format@).take(i as int).push(
            format@[i as int]@,
        ));
        i += 1;
    }
    assert(strs(format@).take(i as int) =~= strs(format@));
    args.push(String::from_str("--embed-thumbnail"));
    args.push(String::from_str("--embed-metadata"));
    args.push(String::from_str("--embed-info-json"));
    args.push(String::from_str("--print"));
    args.push(String::from_str("%()j"));
    args.push(String::from_str("--no-simulate"));
    args.push(String::from_str("--no-progress"));
    args.push(String::from_str("-o"));
    args.push(
        String::from_str(dir).concat(
            "/%(artist,channel,uploader|Unkown)s/%(release_date>%Y%m%d,upload_date>%Y%m%d)s-%(fulltitle)s.%(ext)s",
        ),
    );
    args.push(entry.link.clone());
    assert(texts(args@) =~= command_args(dir@, entry.kind, entry.link@));
    args
}

/// What the download tool reports of the file it wrote.
#[derive(Debug)]
pub struct DownloadInfo {
    /// The page that the tool names as the origin of the media. The
    /// library record is not kept under it but under the item's link.
    pub source: String,
    pub id: String,
    /// The file that was written.
    pub path: String,
    pub title: String,
    pub description: String,
}

impl DownloadInfo {
    /// The library record of the download of the item with the link `link`
    /// that finished at `date`, in seconds since the epoch. The record is
    /// kept under the item's link, whatever page the tool names; the rest is
    /// what the tool reported.
    pub fn into_media_at(self, link: String, date: i64) -> (media: Media)
        ensures
            media == (Media {
                source: link,
                id: self.id,
                path: self.path,
                title: self.title,
                description: self.description,
                date,
            }),
    {
        Media {
            source: link,
            id: self.id,
            path: self.path,
            title: self.title,
            description: self.description,
            date,
        }
    }

    /// The library record of the download of the item with the link `link`
    /// that finished just now: the date is the second that the clock shows.
    pub fn into_media(self, link: String) -> (media: Media)
        ensures
            media.source == link,
            media.id == self.id,
            media.path == self.path,
            media.title == self.title,
            media.description == self.description,
    {
        let now = utc_now();
        self.into_media_at(link, now.secs)
    }
}

/// How a run of the download tool ended.
#[derive(Debug)]
pub struct ToolOutput {
    /// Whether the tool exited with success.
    pub success: bool,
    pub stdout: String,
    pub stderr: String,
}

/// The failure text of a download, if there is one: the tool could not be
/// run (`launched` holds the reason), it ran and failed, or it succeeded
/// and what it printed could not be read (`parsed` holds the reason).
pub open spec fn failure_text(
    launched: Result<ToolOutput, String>,
    parsed: Result<DownloadInfo, String>,
) -> Option<Seq<char>> {
    match launched {
        Err(reason) => Some("Failed execute yt-dlp: "@ + reason@),
        Ok(output) => if !output.success {
            Some("YT-DLP failed:\n"@ + output.stderr@ + "\n"@ + output.stdout@)
        } else {
            match parsed {
                Err(reason) => Some("Failed to parse JSON: "@ + reason@),
                Ok(_) => None,
            }
        },
    }
}

/// Turns the end of a run of the download tool into the result of the
/// download of `entry`. `launched` is the tool's output, or why it could
/// not be run; `parsed` is what reading its standard output as JSON gave;
/// `date` is the time of completion. The download succeeded when the tool
/// ran, exited with success and printed a readable report. Its record is
/// kept under the link of `entry`.
pub fn download_outcome_at(
    entry: &MediaEntry,
    launched: Result<ToolOutput, String>,
    parsed: Result<DownloadInfo, String>,
    date: i64,
) -> (outcome: Result<Media, String>)
    ensures
        failure_text(launched, parsed) matches Some(text) ==> (outcome matches Err(m) && m@
            == text),
        failure_text(launched, parsed) is None ==> (outcome matches Ok(media) && parsed matches Ok(
            info,
        ) && media == (Media {
            source: entry.link,
            id: info.id,
            path: info.path,
            title: info.title,
            description: info.description,
            date,
        })),
{
    match launched {
        Err(reason) => Err(String::from_str("Failed execute yt-dlp: ").concat(reason.as_str())),
        Ok(output) => {
            if !output.success {
                let mut text = String::from_str("YT-DLP failed:\n");
                text.append(output.stderr.as_str());
                text.append("\n");
                text.append(output.stdout.as_str());
                Err(text)
            } else {
                match parsed {
                    Err(reason) => Err(
                        String::from_str("Failed to parse JSON: ").concat(reason.as_str()),
                    ),
                    Ok(info) => Ok(info.into_media_at(entry.link.clone(), date)),
                }
            }
        },
    }
}

/// As [`download_outcome_at`], at the time that the clock shows: whether
/// the download succeeded, every text and the link that the record is kept
/// under do not depend on the clock; only the record's date does.
pub fn download_outcome(
    entry: &MediaEntry,
    launched: Result<ToolOutput, String>,
    parsed: Result<DownloadInfo, String>,
) -> (outcome: Result<Media, String>)
    ensures
        failure_text(launched, parsed) matches Some(text) ==> (outcome matches Err(m) && m@
            == text),
        failure_text(launched, parsed) is None ==> (outcome matches Ok(media) && parsed matches Ok(
            info,
        ) && media.source == entry.link && media.id == info.id && media.path == info.path
            && media.title == info.title && media.description == info.description),
{
    if download_failed(&launched, &parsed) {
        download_outcome_at(entry, launched, parsed, 0)
    } else {
        let now = utc_now();
        download_outcome_at(entry, launched, parsed, now.secs)
    }
}

/// Whether the download failed, so that no record is made of it.
fn download_failed(
    launched: &Result<ToolOutput, String>,
    parsed: &Result<DownloadInfo, String>,
) -> (failed: bool)
    ensures
        failed == (failure_text(*launched, *parsed) is Some),
{
    match launched {
        Err(_) => true,
        Ok(output) => !output.success || parsed.is_err(),
    }
}

/// The items of the sources that could be crawled, source after source in
/// the order of `results`; a source that failed adds nothing.
pub open spec fn gathered(results: Seq<Result<Vec<MediaEntry>, Error>>) -> Seq<MediaEntry>
    decreases results.len(),
{
    if results.len() == 0 {
        Seq::empty()
    } else {
        gathered(results.drop_last()) + (match results.last() {
            Ok(items) => items@,
            Err(_) => Seq::empty(),
        })
    }
}

/// Puts together what a crawl found. Each element of `results` is what one
/// source yielded, or why it could not be crawled. A failure takes nothing
/// away from the other sources, and the items of each source keep their
/// order.
pub fn gather(results: Vec<Result<Vec<MediaEntry>, Error>>) -> (items: Vec<MediaEntry>)
    ensures
        items@ == gathered(results@),
{
    let ghost all = results@;
    let mut items: Vec<MediaEntry> = Vec::new();
    for result in it: results
        invariant
            it.seq() == all,
            items@ == gathered(all.take(it.index() as int)),
    {
        assert(all.take(it.index() + 1).drop_last() == all.take(it.index() as int));
        match result {
            Ok(mut found) => {
                items.append(&mut found);
            },
            Err(_) => {
                assert(items@ + Seq::<MediaEntry>::empty() == items@);
            },
        }
    }
    assert(all.take(all.len() as int) == all);
    items
}

/// What each entry of a parsed feed is, in order.
pub open spec fn entry_views(entries: Seq<FeedEntry>) -> Seq<FeedEntryView> {
    entries.map_values(|e: FeedEntry| e@)
}

/// What each item is, in order.
pub open spec fn item_views(items: Seq<MediaEntry>) -> Seq<MediaEntryView> {
    items.map_values(|m: MediaEntry| m@)
}

/// Whether every entry has at least one link.
pub open spec fn all_linked(entries: Seq<FeedEntryView>) -> bool {
    forall|i: int| 0 <= i < entries.len() ==> (#[trigger] entries[i]).links.len() > 0
}

/// The items that the entries of a feed of the given kind stand for.
pub open spec fn items_of(entries: Seq<FeedEntryView>, kind: SourceType) -> Seq<MediaEntryView> {
    entries.map_values(|e: FeedEntryView| item_of(e, kind))
}

/// Turns the entries of a feed into items of the given kind, in order. One
/// entry without a link spoils the feed: no item is handed out then.
pub fn entries_to_items(entries: Vec<FeedEntry>, kind: SourceType) -> (items: Result<
    Vec<MediaEntry>,
    Error,
>)
    ensures
        all_linked(entry_views(entries@)) ==> (items matches Ok(v) && item_views(v@) == items_of(
            entry_views(entries@),
            kind,
        )),
        !all_linked(entry_views(entries@)) ==> (items matches Err(Error::Custom(m)) && m@
            == "No link on entry!"@),
{
    let ghost all = entries@;
    let mut items: Vec<MediaEntry> = Vec::new();
    for entry in it: entries
        invariant
            it.seq() == all,
            all_linked(entry_views(all.take(it.index() as int))),
            item_views(items@) == items_of(entry_views(all.take(it.index() as int)), kind),
    {
        let ghost i = it.index() as int;
        let ghost view = entry@;
        let ghost earlier = item_views(items@);
        assert(entry_views(all)[i] == view);
        assert(entry_views(all.take(i + 1)) =~= entry_views(all.take(i)).push(view));
        match MediaEntry::from_feed_entry(entry, kind) {
            Ok(item) => {
                items.push(item);
                assert(view.links.len() > 0);
                assert(item_views(items@) =~= earlier.push(item_of(view, kind)));
                assert(items_of(entry_views(all.take(i)).push(view), kind) =~= earlier.push(
                    item_of(view, kind),
                ));
            },
            Err(e) => {
                assert(view.links.len() == 0);
                return Err(e);
            },
        }
    }
    assert(all.take(all.len() as int) == all);
    Ok(items)
}

} // verus!
