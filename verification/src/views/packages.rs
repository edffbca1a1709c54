//! The list of installed packages and the confirmation of an uninstall.
use vstd::prelude::*;

use crate::models::package::InstalledPackage;

verus! {

/// What chrono gives for the UTC instant `secs` seconds and `nanos`
/// nanoseconds after the Unix epoch, written with the pattern
/// `%Y-%m-%d %H:%M`; `None` where `DateTime::<Utc>::from_timestamp` finds
/// the instant out of range. It depends on its arguments alone.
pub uninterp spec fn utc_minute_text(secs: i64, nanos: u32) -> Option<Seq<char>>;

/// `chrono::DateTime::<Utc>::from_timestamp`, then `format` with
/// `%Y-%m-%d %H:%M`; its result is named by `utc_minute_text`.
#[verifier::external_body]
fn format_utc_minute(secs: i64, nanos: u32) -> (r: Option<String>)
    ensures
        match r {
            Some(t) => utc_minute_text(secs, nanos) == Some(t@),
            None => utc_minute_text(secs, nanos).is_none(),
        },
{
    match chrono::DateTime::from_timestamp(secs, nanos) {
        Some(d) => Some(d.format("%Y-%m-%d %H:%M").to_string()),
        None => None,
    }
}

/// The install date of a package as the list shows it: the UTC minute,
/// `YYYY-MM-DD HH:MM`, or nothing when the instant is out of range.
pub fn install_date_label(pkg: &InstalledPackage) -> (r: String)
    ensures
        match utc_minute_text(pkg.install_date_secs, pkg.install_date_nanos) {
            Some(t) => r@ == t,
            None => r@.len() == 0,
        },
{
    match format_utc_minute(pkg.install_date_secs, pkg.install_date_nanos) {
        Some(t) => t,
        None => String::new(),
    }
}

/// The installed-packages screen apart from its widgets.
pub struct PackagesState {
    pub rows: Vec<InstalledPackage>,
    /// The package whose removal awaits confirmation.
    pub confirm_target: Option<String>,
    pub status_msg: Option<String>,
}

impl PackagesState {
    /// The screen showing the given packages, nothing pending.
    pub fn new(rows: Vec<InstalledPackage>) -> (r: PackagesState)
        ensures
            r.rows == rows,
            r.confirm_target.is_none(),
            r.status_msg.is_none(),
    {
        PackagesState { rows, confirm_target: None, status_msg: None }
    }

    /// Shows a freshly loaded package list.
    pub fn reload(&mut self, rows: Vec<InstalledPackage>)
        ensures
            final(self).rows == rows,
            final(self).confirm_target == old(self).confirm_target,
            final(self).status_msg == old(self).status_msg,
    {
        self.rows = rows;
    }

    /// Asks for confirmation before removing `name`.
    pub fn start_uninstall(&mut self, name: String)
        ensures
            final(self).confirm_target == Some(name),
            final(self).rows == old(self).rows,
            final(self).status_msg == old(self).status_msg,
    {
        self.confirm_target = Some(name);
    }

    /// The removal was confirmed: returns the package to remove, if one was
    /// awaiting confirmation, and clears the request.
    pub fn confirm_uninstall(&mut self) -> (r: Option<String>)
        ensures
            r == old(self).confirm_target,
            final(self).confirm_target.is_none(),
            final(self).rows == old(self).rows,
            final(self).status_msg == old(self).status_msg,
    {
        self.confirm_target.take()
    }

    /// The removal was cancelled.
    pub fn cancel_confirm(&mut self)
        ensures
            final(self).confirm_target.is_none(),
            final(self).rows == old(self).rows,
            final(self).status_msg == old(self).status_msg,
    {
        self.confirm_target = None;
    }
}

} // verus!
