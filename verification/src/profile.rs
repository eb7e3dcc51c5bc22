//! Self-declared profiles: every participant writes its own record.
//!
//! A profile holds only what its owner chose to say; empty fields mean
//! nothing was said. Updates apply field by field, and an empty focus text
//! clears the focus.

use vstd::prelude::*;
use crate::bytesutil::{clone_opt_string, opt_str_eq};
use crate::federation::now_micros;

verus! {

/// Preferences controlling framework behavior for one profile owner.
#[derive(Debug, Clone, Copy, PartialEq, Eq, Structural)]
pub struct AiPreferences {
    /// Whether presence is refreshed automatically on every operation.
    pub auto_presence: bool,
}

impl Default for AiPreferences {
    /// The default preferences: automatic presence on.
    fn default() -> (r: AiPreferences)
        ensures
            r.auto_presence == true,
    {
        AiPreferences { auto_presence: true }
    }
}

/// A self-declared profile. Every field but the identifier is optional.
#[derive(Debug)]
pub struct AiProfile {
    /// The owner's identifier.
    pub ai_id: String,
    /// The chosen display name.
    pub display_name: Option<String>,
    /// A free-form self-description.
    pub bio: Option<String>,
    /// Interests and strengths.
    pub interests: Vec<String>,
    /// What the owner is working on right now.
    pub current_focus: Option<String>,
    /// What the owner wants others to know.
    pub status_message: Option<String>,
    /// Behavior preferences.
    pub preferences: AiPreferences,
    /// Which instance the profile lives on.
    pub teambook: Option<String>,
    /// Microseconds since the epoch the profile was created.
    pub created_at: u64,
    /// Microseconds since the epoch of the last update.
    pub updated_at: u64,
}

/// A partial update; only present fields are applied.
#[derive(Debug)]
pub struct ProfileUpdate {
    /// A new display name, if any.
    pub display_name: Option<String>,
    /// A new bio, if any.
    pub bio: Option<String>,
    /// A replacement interests list, if any.
    pub interests: Option<Vec<String>>,
    /// A new focus; empty text clears the focus.
    pub current_focus: Option<String>,
}

/// The interests joined with a comma and a space.
pub open spec fn interests_chars(s: Seq<String>) -> Seq<char>
    decreases s.len(),
{
    if s.len() == 0 {
        Seq::empty()
    } else if s.len() == 1 {
        s[0]@
    } else {
        s[0]@ + ", "@ + interests_chars(s.drop_first())
    }
}

/// One optional labelled line: a newline, the label, the text.
pub open spec fn opt_line(label: Seq<char>, o: Option<String>) -> Seq<char> {
    match o {
        Option::Some(text) => seq!['\n'] + label + text@,
        Option::None => Seq::empty(),
    }
}

/// The text rendering of a profile: one labelled line per present field.
pub open spec fn display_chars(p: AiProfile) -> Seq<char> {
    "AI: "@ + p.ai_id@ + opt_line("Name: "@, p.display_name) + opt_line(
        "Status: "@,
        p.status_message,
    ) + opt_line("Bio: "@, p.bio) + (if p.interests@.len() > 0 {
        seq!['\n'] + "Interests: "@ + interests_chars(p.interests@)
    } else {
        Seq::empty()
    }) + opt_line("Focus: "@, p.current_focus) + opt_line("Teambook: "@, p.teambook) + seq!['\n']
        + "Auto-presence: "@ + (if p.preferences.auto_presence {
        "on"@
    } else {
        "off"@
    })
}

impl AiProfile {
    /// A fresh, empty profile for an identifier, stamped now.
    pub fn new(ai_id: &str) -> (r: AiProfile)
        ensures
            r.ai_id@ == ai_id@,
            r.display_name is None,
            r.bio is None,
            r.interests@.len() == 0,
            r.current_focus is None,
            r.status_message is None,
            r.preferences.auto_presence == true,
            r.teambook is None,
            r.created_at == r.updated_at,
    {
        let now = now_micros();
        AiProfile {
            ai_id: ai_id.to_owned(),
            display_name: None,
            bio: None,
            interests: Vec::new(),
            current_focus: None,
            status_message: None,
            preferences: AiPreferences { auto_presence: true },
            teambook: None,
            created_at: now,
            updated_at: now,
        }
    }

    /// Applies a partial update: only present fields change, and an empty
    /// focus text clears the focus. The update time is stamped.
    pub fn apply_update(&mut self, update: ProfileUpdate)
        ensures
            final(self).ai_id@ == old(self).ai_id@,
            match update.display_name {
                Some(name) => final(self).display_name matches Some(n) && n@ == name@,
                None => opt_str_eq(final(self).display_name, old(self).display_name),
            },
            match update.bio {
                Some(bio) => final(self).bio matches Some(b) && b@ == bio@,
                None => opt_str_eq(final(self).bio, old(self).bio),
            },
            match update.interests {
                Some(list) => final(self).interests@ == list@,
                None => final(self).interests@ == old(self).interests@,
            },
            match update.current_focus {
                Some(focus) => if focus@.len() == 0 {
                    final(self).current_focus is None
                } else {
                    final(self).current_focus matches Some(f) && f@ == focus@
                },
                None => opt_str_eq(final(self).current_focus, old(self).current_focus),
            },
            opt_str_eq(final(self).status_message, old(self).status_message),
            final(self).preferences == old(self).preferences,
            opt_str_eq(final(self).teambook, old(self).teambook),
            final(self).created_at == old(self).created_at,
    {
        match update.display_name {
            Some(name) => {
                self.display_name = Some(name);
            },
            None => {
            },
        }
        match update.bio {
            Some(bio) => {
                self.bio = Some(bio);
            },
            None => {
            },
        }
        match update.interests {
            Some(list) => {
                self.interests = list;
            },
            None => {
            },
        }
        match update.current_focus {
            Some(focus) => {
                if focus.as_str().is_empty() {
                    self.current_focus = None;
                } else {
                    self.current_focus = Some(focus);
                }
            },
            None => {
            },
        }
        self.updated_at = now_micros();
    }

    /// Renders the profile as labelled lines.
    pub fn display(&self) -> (r: String)
        ensures
            r@ == display_chars(*self),
    {
        let mut out = String::new();
        out.append("AI: ");
        out.append(self.ai_id.as_str());
        append_opt_line(&mut out, "Name: ", &self.display_name);
        append_opt_line(&mut out, "Status: ", &self.status_message);
        append_opt_line(&mut out, "Bio: ", &self.bio);
        if self.interests.len() > 0 {
            out.append("\n");
            proof {
                reveal_strlit("\n");
                assert("\n"@ =~= seq!['\n']);
            }
            out.append("Interests: ");
            append_interests(&mut out, &self.interests);
        }
        append_opt_line(&mut out, "Focus: ", &self.current_focus);
        append_opt_line(&mut out, "Teambook: ", &self.teambook);
        out.append("\n");
        proof {
            reveal_strlit("\n");
            assert("\n"@ =~= seq!['\n']);
        }
        out.append("Auto-presence: ");
        if self.preferences.auto_presence {
            out.append("on");
        } else {
            out.append("off");
        }
        proof {
            assert(out@ =~= display_chars(*self));
        }
        out
    }
}

/// Appends one optional labelled line.
fn append_opt_line(out: &mut String, label: &str, o: &Option<String>)
    ensures
        final(out)@ == old(out)@ + opt_line(label@, *o),
{
    match o {
        Some(text) => {
            out.append("\n");
            proof {
                reveal_strlit("\n");
                assert("\n"@ =~= seq!['\n']);
            }
            out.append(label);
            out.append(text.as_str());
            proof {
                assert(out@ =~= old(out)@ + opt_line(label@, *o));
            }
        },
        None => {
            proof {
                assert(out@ =~= old(out)@ + opt_line(label@, *o));
            }
        },
    }
}

/// Appends the interests joined with a comma and a space.
fn append_interests(out: &mut String, interests: &Vec<String>)
    ensures
        final(out)@ == old(out)@ + interests_chars(interests@),
{
    let n = interests.len();
    let mut i: usize = 0;
    while i < n
        invariant
            n == interests@.len(),
            i <= n,
            out@ == old(out)@ + interests_prefix(interests@, i as int),
        decreases n - i,
    {
        if i > 0 {
            out.append(", ");
        }
        out.append(interests[i].as_str());
        proof {
            lemma_interests_prefix_step(interests@, i as int);
        }
        i = i + 1;
    }
    proof {
        lemma_interests_prefix_full(interests@);
    }
}

/// The join of the first `i` interests.
pub open spec fn interests_prefix(s: Seq<String>, i: int) -> Seq<char>
    decreases i,
{
    if i <= 0 {
        Seq::empty()
    } else if i == 1 {
        s[0]@
    } else {
        interests_prefix(s, i - 1) + ", "@ + s[i - 1]@
    }
}

/// Extending the joined prefix by one element appends a separator and it.
proof fn lemma_interests_prefix_step(s: Seq<String>, i: int)
    requires
        0 <= i < s.len(),
    ensures
        i == 0 ==> interests_prefix(s, 1) == s[0]@,
        i > 0 ==> interests_prefix(s, i + 1) == interests_prefix(s, i) + ", "@ + s[i]@,
{
}

/// The full prefix is the full join.
proof fn lemma_interests_prefix_full(s: Seq<String>)
    ensures
        interests_prefix(s, s.len() as int) == interests_chars(s),
    decreases s.len(),
{
    if s.len() == 0 {
        assert(interests_chars(s) =~= Seq::<char>::empty());
    } else if s.len() == 1 {
    } else {
        lemma_interests_prefix_full(s.drop_first());
        lemma_prefix_shift(s, s.len() as int);
    }
}

/// Joining a prefix commutes with dropping the first element.
proof fn lemma_prefix_shift(s: Seq<String>, i: int)
    requires
        2 <= i <= s.len(),
    ensures
        interests_prefix(s, i) == s[0]@ + ", "@ + interests_prefix(s.drop_first(), i - 1),
    decreases i,
{
    if i == 2 {
        assert(s.drop_first()[0] == s[1]);
        assert(interests_prefix(s, 1) == s[0]@);
        assert(interests_prefix(s.drop_first(), 1) == s.drop_first()[0]@);
        assert(interests_prefix(s, 2) == interests_prefix(s, 1) + ", "@ + s[1]@);
        assert(interests_prefix(s, 2) =~= s[0]@ + ", "@ + interests_prefix(s.drop_first(), 1));
    } else {
        lemma_prefix_shift(s, i - 1);
        assert(s.drop_first()[i - 2] == s[i - 1]);
        assert(interests_prefix(s, i) =~= s[0]@ + ", "@ + interests_prefix(s.drop_first(), i - 1));
    }
}

} // verus!
