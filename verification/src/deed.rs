use vstd::prelude::*;

verus! {

/// Whether some entry of `s` has view `a`.
pub open spec fn seq_contains(s: Seq<String>, a: Seq<char>) -> bool {
    exists|i: int| 0 <= i < s.len() && s[i]@ == a
}

/// No two entries of `s` are the same account name.
pub open spec fn distinct_names(s: Seq<String>) -> bool {
    forall|i: int, j: int| 0 <= i < j < s.len() ==> s[i]@ != s[j]@
}

/// True exactly when `a` occurs in `v`.
pub fn vec_contains(v: &Vec<String>, a: &String) -> (r: bool)
    ensures
        r == seq_contains(v@, a@),
{
    let n = v.len();
    let mut i: usize = 0;
    while i < n
        invariant
            n == v@.len(),
            i <= n,
            forall|j: int| 0 <= j < i ==> v@[j]@ != a@,
        decreases n - i,
    {
        if v[i] == *a {
            return true;
        }
        i = i + 1;
    }
    false
}

/// One published good-deed record. The id is its position in the registry;
/// the descriptive fields never change after creation; the creditor list only
/// grows, never contains the author, and never lists an account twice.
pub struct SocialDeed {
    pub id: u64,
    pub author: String,
    pub title: String,
    pub description: String,
    pub evidence: String,
    pub creditors: Vec<String>,
}

impl SocialDeed {
    /// The author never credits their own deed and no account is listed as a
    /// creditor twice.
    pub open spec fn wf(&self) -> bool {
        &&& distinct_names(self.creditors@)
        &&& !seq_contains(self.creditors@, self.author@)
    }

    /// Whether `a` has credited this deed.
    pub open spec fn spec_is_creditor(&self, a: Seq<char>) -> bool {
        seq_contains(self.creditors@, a)
    }

    /// Creates a fresh record with no creditors.
    pub fn new(id: u64, author: String, title: String, description: String, evidence: String) -> (
        r: SocialDeed)
        ensures
            r.wf(),
            r.id == id,
            r.author == author,
            r.title == title,
            r.description == description,
            r.evidence == evidence,
            r.creditors@.len() == 0,
    {
        SocialDeed { id, author, title, description, evidence, creditors: Vec::new() }
    }
}

/// The projection of one deed that `social_deeds` pages out: the record's
/// descriptive fields, its creditor count, and whether one queried account is
/// among the creditors.
pub struct SerializableDeed {
    pub id: u64,
    pub author: String,
    pub title: String,
    pub description: String,
    pub evidence: String,
    pub creditors: u64,
    pub is_creditor: bool,
}

impl SerializableDeed {
    /// Packs the fields of one projected record.
    pub fn new(
        id: u64,
        author: String,
        title: String,
        description: String,
        evidence: String,
        creditors: u64,
        is_creditor: bool,
    ) -> (r: SerializableDeed)
        ensures
            r.id == id,
            r.author == author,
            r.title == title,
            r.description == description,
            r.evidence == evidence,
            r.creditors == creditors,
            r.is_creditor == is_creditor,
    {
        SerializableDeed { id, author, title, description, evidence, creditors, is_creditor }
    }
}

} // verus!
