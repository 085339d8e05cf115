//! The WebParser plugin: a text (fetched by the caller from its `URL`),
//! the groups its `RegExp` captures, and the group a measure shows.
use crate::ini::MeasureConfig;
use crate::measures::{opt_view, option, ov, prop};
use crate::text::{eq_ignore_case, views};
use vstd::prelude::*;

verus! {

/// What `Regex::new(pattern)` then `captures(text)` gives: the text of
/// every group of the first match (empty for a group that took no part),
/// group 0 being the whole match; empty when the pattern does not compile
/// or does not match.
pub uninterp spec fn regex_capture_texts(pattern: Seq<char>, text: Seq<char>) -> Seq<Seq<char>>;

/// Calls `regex::Regex::new` and `Regex::captures`; the groups depend on
/// the pattern and the text alone, by the regex crate's rules, and are
/// left as a name.
#[verifier::external_body]
fn regex_captures(pattern: &str, text: &str) -> (r: Vec<String>)
    ensures
        views(r@) == regex_capture_texts(pattern@, text@),
{
    match regex::Regex::new(pattern) {
        Ok(re) => match re.captures(text) {
            Some(c) => c.iter().map(|m| m.map(|g| g.as_str()).unwrap_or("").to_string()).collect(),
            None => Vec::new(),
        },
        Err(_) => Vec::new(),
    }
}

/// A WebParser measure.
#[derive(Debug, Clone)]
pub struct WebParserPlugin {
    pub url: Option<String>,
    pub regex_pattern: Option<String>,
    pub string_index: usize,
    pub mock_data: Option<String>,
    pub download: bool,
    pub download_file: Option<String>,
    pub raw_content: String,
    pub cached_captures: Vec<String>,
    pub current_value: String,
}

/// The groups a pattern captures in a text; none without a pattern.
pub open spec fn captures_of(pattern: Option<String>, text: Seq<char>) -> Seq<Seq<char>> {
    match pattern {
        Some(p) => regex_capture_texts(p@, text),
        None => seq![],
    }
}

/// The value a measure shows: group `index`, else the whole text for
/// index 0 when it is not empty, else empty.
pub open spec fn shown_value(caps: Seq<Seq<char>>, index: nat, raw: Seq<char>) -> Seq<char> {
    if index < caps.len() {
        caps[index as int]
    } else if index == 0 && raw.len() > 0 {
        raw
    } else {
        seq![]
    }
}

impl WebParserPlugin {
    /// No URL, no pattern, index 0, nothing read yet.
    pub fn new() -> (r: Self)
        ensures
            r.url is None && r.regex_pattern is None && r.string_index == 0,
            r.mock_data is None && !r.download && r.download_file is None,
            r.raw_content@.len() == 0 && r.cached_captures@.len() == 0 && r.current_value@.len()
                == 0,
    {
        WebParserPlugin {
            url: None,
            regex_pattern: None,
            string_index: 0,
            mock_data: None,
            download: false,
            download_file: None,
            raw_content: String::new(),
            cached_captures: Vec::new(),
            current_value: String::new(),
        }
    }

    /// Reads `URL`, `RegExp`, `StringIndex`, `Download` (`1` or `true`)
    /// and `DownloadFile`.
    pub fn from_config(config: &MeasureConfig) -> (r: Self)
        requires
            config.properties.wf(),
        ensures
            ov(r.url) == prop(*config, "url"@),
            ov(r.regex_pattern) == prop(*config, "regex"@),
            r.string_index == (match prop(*config, "stringindex"@) {
                Some(s) => match crate::text::parse_uint(s, usize::MAX as nat) {
                    Some(n) => n,
                    None => 0,
                },
                None => 0,
            }),
            r.download == (match prop(*config, "download"@) {
                Some(d) => d == "1"@ || eq_ignore_case(d, "true"@),
                None => false,
            }),
            ov(r.download_file) == prop(*config, "downloadfile"@),
            r.mock_data is None,
            r.raw_content@.len() == 0 && r.cached_captures@.len() == 0,
    {
        let mut p = Self::new();
        if let Some(u) = option(config, "url") {
            p.url = Some(u.to_string());
        }
        if let Some(re) = option(config, "regex") {
            p.regex_pattern = Some(re.to_string());
        }
        if let Some(s) = option(config, "stringindex") {
            if let Some(n) = crate::text::parse_uint_str(s, usize::MAX as u64) {
                p.string_index = n as usize;
            }
        }
        if let Some(d) = option(config, "download") {
            p.download = crate::text::str_eq(d, "1") || crate::text::eq_ignore_case_str(d, "true");
        }
        if let Some(f) = option(config, "downloadfile") {
            p.download_file = Some(f.to_string());
        }
        p
    }

    /// The measure with this URL.
    pub fn with_url(self, url: &str) -> (r: Self)
        ensures
            ov(r.url) == Some(url@),
            r.regex_pattern == self.regex_pattern && r.string_index == self.string_index,
            r.mock_data == self.mock_data && r.raw_content == self.raw_content,
    {
        let mut p = self;
        p.url = Some(url.to_string());
        p
    }

    /// The measure with this pattern.
    pub fn with_regex(self, pattern: &str) -> (r: Self)
        ensures
            ov(r.regex_pattern) == Some(pattern@),
            r.url == self.url && r.string_index == self.string_index,
            r.mock_data == self.mock_data && r.raw_content == self.raw_content,
    {
        let mut p = self;
        p.regex_pattern = Some(pattern.to_string());
        p
    }

    /// The measure showing group `index`.
    pub fn with_string_index(self, index: usize) -> (r: Self)
        ensures
            r.string_index == index,
            r.url == self.url && r.regex_pattern == self.regex_pattern,
            r.mock_data == self.mock_data && r.raw_content == self.raw_content,
    {
        let mut p = self;
        p.string_index = index;
        p
    }

    /// The measure with a fixed text, its groups captured.
    pub fn with_mock_data(self, data: &str) -> (r: Self)
        ensures
            ov(r.mock_data) == Some(data@),
            r.raw_content@ == data@,
            views(r.cached_captures@) == captures_of(self.regex_pattern, data@),
            r.url == self.url && r.regex_pattern == self.regex_pattern,
            r.string_index == self.string_index,
    {
        let mut p = self;
        p.mock_data = Some(data.to_string());
        p.raw_content = data.to_string();
        p.extract_captures();
        p
    }

    /// Captures the groups of the current text.
    pub fn extract_captures(&mut self)
        ensures
            views(final(self).cached_captures@) == captures_of(
                old(self).regex_pattern,
                old(self).raw_content@,
            ),
            final(self).raw_content == old(self).raw_content,
            final(self).regex_pattern == old(self).regex_pattern,
            final(self).string_index == old(self).string_index,
            final(self).url == old(self).url,
            final(self).mock_data == old(self).mock_data,
    {
        self.cached_captures = match &self.regex_pattern {
            Some(p) => regex_captures(p.as_str(), self.raw_content.as_str()),
            None => {
                let v: Vec<String> = Vec::new();
                assert(views(v@) =~= Seq::<Seq<char>>::empty());
                v
            },
        };
    }

    /// Sets the text and captures its groups.
    pub fn set_data(&mut self, data: &str)
        ensures
            final(self).raw_content@ == data@,
            views(final(self).cached_captures@) == captures_of(old(self).regex_pattern, data@),
            final(self).regex_pattern == old(self).regex_pattern,
            final(self).string_index == old(self).string_index,
            final(self).url == old(self).url,
            final(self).mock_data == old(self).mock_data,
    {
        self.raw_content = data.to_string();
        self.extract_captures();
    }

    /// Fixes the text (for tests and offline use) and captures its groups;
    /// `None` goes back to fetching.
    pub fn set_mock_data(&mut self, data: Option<String>)
        ensures
            ov(final(self).mock_data) == ov(data),
            data is Some ==> final(self).raw_content@ == data->0@ && views(
                final(self).cached_captures@,
            ) == captures_of(old(self).regex_pattern, data->0@),
            data is None ==> final(self).raw_content == old(self).raw_content
                && final(self).cached_captures == old(self).cached_captures,
            final(self).regex_pattern == old(self).regex_pattern,
            final(self).string_index == old(self).string_index,
            final(self).url == old(self).url,
    {
        match data {
            Some(d) => {
                self.raw_content = d.clone();
                self.mock_data = Some(d);
                self.extract_captures();
            },
            None => {
                self.mock_data = None;
            },
        }
    }

    /// Group `index` of the last capture.
    pub fn get_match(&self, index: usize) -> (r: Option<&str>)
        ensures
            match r {
                Some(s) => index < self.cached_captures@.len() && s@
                    == self.cached_captures@[index as int]@,
                None => index >= self.cached_captures@.len(),
            },
    {
        if index < self.cached_captures.len() {
            Some(self.cached_captures[index].as_str())
        } else {
            None
        }
    }

    /// An update: the text becomes the fixed data when there is some, else
    /// the freshly fetched text when the fetch succeeded (else it stays);
    /// then the groups are captured and the shown value chosen.
    pub fn update_with(&mut self, fetched: Option<String>) -> (r: String)
        ensures
            final(self).raw_content@ == (match old(self).mock_data {
                Some(m) => m@,
                None => match fetched {
                    Some(f) => if old(self).url is Some {
                        f@
                    } else {
                        old(self).raw_content@
                    },
                    None => old(self).raw_content@,
                },
            }),
            views(final(self).cached_captures@) == captures_of(
                old(self).regex_pattern,
                final(self).raw_content@,
            ),
            r@ == shown_value(
                views(final(self).cached_captures@),
                old(self).string_index as nat,
                final(self).raw_content@,
            ),
            final(self).current_value@ == r@,
    {
        match &self.mock_data {
            Some(m) => {
                self.raw_content = m.clone();
            },
            None => {
                if self.url.is_some() {
                    if let Some(f) = fetched {
                        self.raw_content = f;
                    }
                }
            },
        }
        self.extract_captures();
        let idx = self.string_index;
        let v = if idx < self.cached_captures.len() {
            self.cached_captures[idx].clone()
        } else if idx == 0 && self.raw_content.unicode_len() > 0 {
            self.raw_content.clone()
        } else {
            String::new()
        };
        proof {
            assert(views(self.cached_captures@).len() == self.cached_captures@.len());
            if idx < self.cached_captures@.len() {
                assert(views(self.cached_captures@)[idx as int] == self.cached_captures@[idx as int]@);
            }
        }
        self.current_value = v.clone();
        v
    }
}

} // verus!
