use vstd::prelude::*;
use vstd::string::StrSliceExecFns;

verus! {

/// The user-manual pages of the older single-chapter layout, kept for
/// callers that still index pages by this flat list.
#[derive(Clone, Copy, Debug, Default, PartialEq, Eq, Structural)]
pub enum ManualPageObsolete {
    #[default]
    MissionBriefing,
    EssentialControls,
    EMFAndThermometer,
    TruckJournal,
    ExpellingGhost,
}

/// One manual page: its heading text. Rendering the page body is the
/// embedder's concern; the manual itself carries only the page metadata.
#[derive(Clone, Debug, PartialEq, Eq)]
pub struct ManualPageData {
    pub title: String,
    pub subtitle: String,
}

/// The whole user manual: its chapters in reading order.
#[derive(Clone, Debug, PartialEq, Eq)]
pub struct Manual {
    pub chapters: Vec<ManualChapter>,
}

/// One chapter: its pages in reading order and its name.
#[derive(Clone, Debug, PartialEq, Eq)]
pub struct ManualChapter {
    pub pages: Vec<ManualPageData>,
    pub name: String,
}

/// Two strings hold the same characters.
pub open spec fn same_name(a: String, b: String) -> bool {
    a@ == b@
}

/// Whether two strings hold the same characters.
pub fn str_chars_eq(a: &str, b: &str) -> (r: bool)
    ensures
        r == (a@ == b@),
{
    let n: usize = a.unicode_len();
    if n != b.unicode_len() {
        proof {
            assert(a@.len() != b@.len());
        }
        return false;
    }
    let mut i: usize = 0;
    while i < n
        invariant
            0 <= i <= n,
            a@.len() == n && b@.len() == n,
            forall|k: int| 0 <= k < i ==> a@[k] == b@[k],
        decreases n - i,
    {
        if a.get_char(i) != b.get_char(i) {
            return false;
        }
        i = i + 1;
    }
    proof {
        assert(a@ =~= b@);
    }
    true
}

impl ManualChapter {
    /// The position of this chapter in the manual, found by name; the
    /// chapter must be present, as a missing chapter is an invalid state.
    pub fn index(&self, manuals: &Manual) -> (r: usize)
        requires
            exists|i: int|
                0 <= i < manuals.chapters@.len() && same_name(
                    (#[trigger] manuals.chapters@[i]).name,
                    self.name,
                ),
        ensures
            r < manuals.chapters@.len(),
            same_name(manuals.chapters@[r as int].name, self.name),
            forall|i: int|
                0 <= i < r ==> !same_name((#[trigger] manuals.chapters@[i]).name, self.name),
    {
        let mut i: usize = 0;
        while i < manuals.chapters.len()
            invariant
                0 <= i <= manuals.chapters@.len(),
                exists|w: int|
                    0 <= w < manuals.chapters@.len() && same_name(
                        (#[trigger] manuals.chapters@[w]).name,
                        self.name,
                    ),
                forall|w: int|
                    0 <= w < i ==> !same_name((#[trigger] manuals.chapters@[w]).name, self.name),
            decreases manuals.chapters@.len() - i,
        {
            if str_chars_eq(manuals.chapters[i].name.as_str(), self.name.as_str()) {
                return i;
            }
            i = i + 1;
        }
        proof {
            assert(false);
        }
        0
    }
}

/// Builds one manual page from its headings.
fn manual_page(title: &str, subtitle: &str) -> (r: ManualPageData)
    ensures
        r.title@ == title@,
        r.subtitle@ == subtitle@,
{
    ManualPageData { title: title.to_owned(), subtitle: subtitle.to_owned() }
}

/// Builds the user manual: the getting-started chapter and the advanced
/// chapter, each with its pages in reading order.
pub fn create_manual() -> (r: Manual)
    ensures
        r.chapters@.len() == 2,
        r.chapters@[0].pages@.len() == 5,
        r.chapters@[1].pages@.len() == 1,
{
    let mut pages1: Vec<ManualPageData> = Vec::new();
    pages1.push(manual_page("Mission Briefing", "What awaits on a haunted location"));
    pages1.push(manual_page("Essential Controls", "Moving, interacting and the inventory"));
    pages1.push(manual_page("EMF and Thermometer", "Reading the first two instruments"));
    pages1.push(manual_page("Truck Journal", "Narrowing down the ghost"));
    pages1.push(manual_page("Expelling the Ghost", "Crafting and using the repellent"));
    let chapter1 = ManualChapter { pages: pages1, name: "Chapter 1: Getting Started".to_owned() };
    let mut pages2: Vec<ManualPageData> = Vec::new();
    pages2.push(manual_page("Advanced Gear", "The remaining instruments"));
    let chapter2 = ManualChapter { pages: pages2, name: "Chapter 2: Advanced Techniques".to_owned() };
    let mut chapters: Vec<ManualChapter> = Vec::new();
    chapters.push(chapter1);
    chapters.push(chapter2);
    Manual { chapters }
}

/// The reading position inside the manual: chapter index, then page index.
#[derive(Clone, Copy, Debug, Default, PartialEq, Eq, Structural)]
pub struct CurrentManualPage(pub usize, pub usize);

} // verus!
