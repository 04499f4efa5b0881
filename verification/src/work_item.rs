//! Work items: for one hour of one day, where the image is fetched from and
//! under which name it is kept.

use vstd::prelude::*;
use vstd::string::StringExecFns;
use crate::calendar::Date;
use crate::text::{
    lemma_two_digit_text_injective, lemma_year_text_injective, lemma_year_text_len, two_digit_text,
    two_digits, year_text,
};

verus! {

/// The endpoint that serves the images.
pub const IMAGE_BASE_URL: &'static str = "https://climate.weather.gc.ca/radar/image_e.html";

/// One hour of one day.
#[derive(Clone, Copy, Debug, PartialEq, Eq, Structural)]
pub struct Timestamp {
    pub date: Date,
    pub hour: u32,
}

impl Timestamp {
    /// The day exists and the hour is one of 0 to 23.
    pub open spec fn valid(self) -> bool {
        self.date.valid() && self.hour < 24
    }

    /// This timestamp comes strictly before `other`: an earlier day, or the
    /// same day and an earlier hour.
    pub open spec fn is_before(self, other: Timestamp) -> bool {
        self.date.day_number() < other.date.day_number() || (self.date.day_number()
            == other.date.day_number() && self.hour < other.hour)
    }
}

/// What follows the year in a file name: `-MM-DDTHH-00.gif`.
pub open spec fn name_tail_text(t: Timestamp) -> Seq<char> {
    "-"@ + two_digit_text(t.date.month as int) + "-"@ + two_digit_text(t.date.day as int) + "T"@
        + two_digit_text(t.hour as int) + "-00.gif"@
}

/// The name under which the image of `t` is kept:
/// `{site}_{image_type}_{YYYY}-{MM}-{DD}T{HH}-00.gif`.
pub open spec fn file_name_text(site: Seq<char>, image_type: Seq<char>, t: Timestamp) -> Seq<
    char,
> {
    site + "_"@ + image_type + "_"@ + (year_text(t.date.year as int) + name_tail_text(t))
}

/// The address of the image of `t`: the endpoint, then the query
/// `time={YYYY}{MM}{DD}{HH}00`, `site` and `image_type`.
pub open spec fn remote_url_text(site: Seq<char>, image_type: Seq<char>, t: Timestamp) -> Seq<
    char,
> {
    IMAGE_BASE_URL@ + "?time="@ + year_text(t.date.year as int) + two_digit_text(
        t.date.month as int,
    ) + two_digit_text(t.date.day as int) + two_digit_text(t.hour as int) + "00&site="@ + site
        + "&image_type="@ + image_type
}

/// The text of a work item.
pub struct WorkItemText {
    pub remote_url: Seq<char>,
    pub local_file_name: Seq<char>,
}

/// One image to retrieve.
#[derive(Debug, PartialEq, Eq)]
pub struct WorkItem {
    pub remote_url: String,
    pub local_file_name: String,
}

impl View for WorkItem {
    type V = WorkItemText;

    open spec fn view(&self) -> WorkItemText {
        WorkItemText { remote_url: self.remote_url@, local_file_name: self.local_file_name@ }
    }
}

/// The work item of `t` for a site and an image type.
pub open spec fn work_item_text(site: Seq<char>, image_type: Seq<char>, t: Timestamp)
    -> WorkItemText {
    WorkItemText {
        remote_url: remote_url_text(site, image_type, t),
        local_file_name: file_name_text(site, image_type, t),
    }
}

/// The file name of the image of `t`.
pub fn local_file_name(site: &str, image_type: &str, t: Timestamp) -> (name: String)
    requires
        t.valid(),
    ensures
        name@ == file_name_text(site@, image_type@, t),
{
    let month = t.date.month_string();
    let day = t.date.day_string();
    let hour = two_digits(t.hour);
    let mut tail = String::from_str("-");
    tail.append(month.as_str());
    tail.append("-");
    tail.append(day.as_str());
    tail.append("T");
    tail.append(hour.as_str());
    tail.append("-00.gif");
    let mut stamp = t.date.year_string();
    stamp.append(tail.as_str());
    let mut name = String::from_str(site);
    name.append("_");
    name.append(image_type);
    name.append("_");
    name.append(stamp.as_str());
    name
}

/// The address of the image of `t`.
pub fn remote_url(site: &str, image_type: &str, t: Timestamp) -> (url: String)
    requires
        t.valid(),
    ensures
        url@ == remote_url_text(site@, image_type@, t),
{
    let year = t.date.year_string();
    let month = t.date.month_string();
    let day = t.date.day_string();
    let hour = two_digits(t.hour);
    let mut url = String::from_str(IMAGE_BASE_URL);
    url.append("?time=");
    url.append(year.as_str());
    url.append(month.as_str());
    url.append(day.as_str());
    url.append(hour.as_str());
    url.append("00&site=");
    url.append(site);
    url.append("&image_type=");
    url.append(image_type);
    url
}

impl WorkItem {
    /// The work item of `t` for a site and an image type.
    pub fn build(site: &str, image_type: &str, t: Timestamp) -> (item: WorkItem)
        requires
            t.valid(),
        ensures
            item@ == work_item_text(site@, image_type@, t),
    {
        WorkItem {
            remote_url: remote_url(site, image_type, t),
            local_file_name: local_file_name(site, image_type, t),
        }
    }
}

proof fn lemma_name_tail(t: Timestamp)
    ensures
        name_tail_text(t).len() == 16,
        name_tail_text(t)[1] == two_digit_text(t.date.month as int)[0],
        name_tail_text(t)[2] == two_digit_text(t.date.month as int)[1],
        name_tail_text(t)[4] == two_digit_text(t.date.day as int)[0],
        name_tail_text(t)[5] == two_digit_text(t.date.day as int)[1],
        name_tail_text(t)[7] == two_digit_text(t.hour as int)[0],
        name_tail_text(t)[8] == two_digit_text(t.hour as int)[1],
{
    reveal_strlit("-");
    reveal_strlit("T");
    reveal_strlit("-00.gif");
}

/// Two distinct timestamps never share a file name: for one site and one
/// image type, equal file names mean equal timestamps.
pub proof fn lemma_file_name_injective(
    site: Seq<char>,
    image_type: Seq<char>,
    a: Timestamp,
    b: Timestamp,
)
    requires
        a.valid(),
        b.valid(),
        file_name_text(site, image_type, a) == file_name_text(site, image_type, b),
    ensures
        a == b,
{
    let prefix = site + "_"@ + image_type + "_"@;
    let ya = year_text(a.date.year as int);
    let yb = year_text(b.date.year as int);
    let ta = name_tail_text(a);
    let tb = name_tail_text(b);
    let na = prefix + (ya + ta);
    let nb = prefix + (yb + tb);
    assert(na.subrange(prefix.len() as int, na.len() as int) =~= ya + ta);
    assert(nb.subrange(prefix.len() as int, nb.len() as int) =~= yb + tb);
    assert(ya + ta == yb + tb);
    lemma_name_tail(a);
    lemma_name_tail(b);
    lemma_year_text_len(a.date.year as int);
    lemma_year_text_len(b.date.year as int);
    assert((ya + ta).len() == ya.len() + 16);
    assert((yb + tb).len() == yb.len() + 16);
    let n = ya.len() as int;
    assert((ya + ta).subrange(0, n) =~= ya);
    assert((yb + tb).subrange(0, n) =~= yb);
    assert((ya + ta).subrange(n, n + 16) =~= ta);
    assert((yb + tb).subrange(n, n + 16) =~= tb);
    lemma_year_text_injective(a.date.year as int, b.date.year as int);
    assert(two_digit_text(a.date.month as int) =~= two_digit_text(b.date.month as int)) by {
        assert(ta[1] == tb[1]);
        assert(ta[2] == tb[2]);
    }
    assert(two_digit_text(a.date.day as int) =~= two_digit_text(b.date.day as int)) by {
        assert(ta[4] == tb[4]);
        assert(ta[5] == tb[5]);
    }
    assert(two_digit_text(a.hour as int) =~= two_digit_text(b.hour as int)) by {
        assert(ta[7] == tb[7]);
        assert(ta[8] == tb[8]);
    }
    lemma_two_digit_text_injective(a.date.month as int, b.date.month as int);
    lemma_two_digit_text_injective(a.date.day as int, b.date.day as int);
    lemma_two_digit_text_injective(a.hour as int, b.hour as int);
}

} // verus!
