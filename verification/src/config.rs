//! Settings of the journal.

use vstd::prelude::*;

verus! {

/// The settings that a user may give. Each may be left out.
#[derive(Debug, Clone, Default)]
pub struct Config {
    /// Where the journal lies.
    pub path: Option<String>,
    /// How timestamps are shown, in `strftime` notation.
    pub date_format: Option<String>,
    /// The program that composes a message.
    pub editor: Option<String>,
}

impl Config {
    /// How timestamps are shown where the settings do not say.
    pub open spec fn default_date_format() -> Seq<char> {
        "%Y-%m-%d %H:%M"@
    }

    /// How timestamps are shown: as the settings say, else by year, month,
    /// day, hour and minute.
    pub fn date_format(&self) -> (format: String)
        ensures
            format@ == match self.date_format {
                Some(f) => f@,
                None => Config::default_date_format(),
            },
    {
        match &self.date_format {
            Some(f) => f.clone(),
            None => "%Y-%m-%d %H:%M".to_owned(),
        }
    }

    /// The program that composes a message: the one that the settings
    /// name, else `fallback`, which is the caller's to find.
    pub fn editor(&self, fallback: Option<String>) -> (editor: Option<String>)
        ensures
            editor == match self.editor {
                Some(e) => Some(e),
                None => fallback,
            },
    {
        match &self.editor {
            Some(e) => Some(e.clone()),
            None => fallback,
        }
    }
}

} // verus!
