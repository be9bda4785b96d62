use vstd::prelude::*;

use crate::text::same_text;

verus! {

/// Lifecycle of a knowledge item.
#[derive(Clone, Copy, Debug, PartialEq, Eq, Structural)]
pub enum Status {
    /// Just captured.
    Raw,
    /// Promoted for enrichment.
    Queued,
    /// Has a vector, awaiting relationship extraction.
    EmbeddedPendingLink,
    /// Embedded and considered for linking.
    Settled,
    /// Vector discarded; re-embedded, then settled without linking.
    ForceReembed,
    /// Vector kept; only relationship extraction is repeated.
    ForceReextract,
}

impl Status {
    /// The word under which a status is stored.
    pub open spec fn name(self) -> Seq<char> {
        match self {
            Status::Raw => "MASH_TUN"@,
            Status::Queued => "ON_STILL"@,
            Status::EmbeddedPendingLink => "DISTILLED"@,
            Status::Settled => "JARRED"@,
            Status::ForceReembed => "RE_EMBED"@,
            Status::ForceReextract => "RE_EXTRACT"@,
        }
    }

    /// Statuses in which an item must hold a vector.
    pub open spec fn needs_embedding(self) -> bool {
        self == Status::EmbeddedPendingLink || self == Status::Settled || self
            == Status::ForceReextract
    }

    /// The stored word for this status.
    pub fn as_str(&self) -> (r: &'static str)
        ensures
            r@ == self.name(),
    {
        match self {
            Status::Raw => "MASH_TUN",
            Status::Queued => "ON_STILL",
            Status::EmbeddedPendingLink => "DISTILLED",
            Status::Settled => "JARRED",
            Status::ForceReembed => "RE_EMBED",
            Status::ForceReextract => "RE_EXTRACT",
        }
    }

    /// Reads a stored word back; an unknown word is refused.
    pub fn parse(s: &str) -> (r: Option<Status>)
        ensures
            r matches Some(st) ==> st.name() == s@,
            r is None ==> (forall|st: Status| #[trigger] st.name() != s@),
    {
        proof {
            reveal_strlit("MASH_TUN");
            reveal_strlit("ON_STILL");
            reveal_strlit("DISTILLED");
            reveal_strlit("JARRED");
            reveal_strlit("RE_EMBED");
            reveal_strlit("RE_EXTRACT");
        }
        if same_text(s, "MASH_TUN") {
            Some(Status::Raw)
        } else if same_text(s, "ON_STILL") {
            Some(Status::Queued)
        } else if same_text(s, "DISTILLED") {
            Some(Status::EmbeddedPendingLink)
        } else if same_text(s, "JARRED") {
            Some(Status::Settled)
        } else if same_text(s, "RE_EMBED") {
            Some(Status::ForceReembed)
        } else if same_text(s, "RE_EXTRACT") {
            Some(Status::ForceReextract)
        } else {
            assert forall|st: Status| #[trigger] st.name() != s@ by {
                match st {
                    Status::Raw => {},
                    Status::Queued => {},
                    Status::EmbeddedPendingLink => {},
                    Status::Settled => {},
                    Status::ForceReembed => {},
                    Status::ForceReextract => {},
                }
            }
            None
        }
    }
}

} // verus!
