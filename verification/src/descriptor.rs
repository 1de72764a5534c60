//! The connection descriptor of the sink.
//!
//! A descriptor has the form `protocol://key@host/project`. The protocol
//! ends at the first colon, the key at the first `@` after it, and the host
//! at the first slash after that; none of the four parts is empty.

use vstd::prelude::*;
use vstd::string::StrSliceExecFns;
use vstd::string::StringExecFns;

verus! {

/// The parts of a connection descriptor.
#[derive(Debug, PartialEq, Eq)]
pub struct SinkDescriptor {
    pub protocol: String,
    pub key: String,
    pub host: String,
    pub project: String,
}

/// The mathematical content of a [`SinkDescriptor`].
pub ghost struct DescriptorView {
    pub protocol: Seq<char>,
    pub key: Seq<char>,
    pub host: Seq<char>,
    pub project: Seq<char>,
}

impl View for SinkDescriptor {
    type V = DescriptorView;

    open spec fn view(&self) -> DescriptorView {
        DescriptorView {
            protocol: self.protocol@,
            key: self.key@,
            host: self.host@,
            project: self.project@,
        }
    }
}

impl DescriptorView {
    /// No part is empty, and no part but the last holds the character that
    /// ends it.
    pub open spec fn wf(self) -> bool {
        &&& self.protocol.len() > 0
        &&& self.key.len() > 0
        &&& self.host.len() > 0
        &&& self.project.len() > 0
        &&& !self.protocol.contains(':')
        &&& !self.key.contains('@')
        &&& !self.host.contains('/')
    }

    /// The descriptor written out.
    pub open spec fn text(self) -> Seq<char> {
        self.protocol + seq![':', '/', '/'] + self.key + seq!['@'] + self.host + seq!['/']
            + self.project
    }
}

/// The first position at or after `from` that holds `c`, or the length of
/// the text where there is none.
pub open spec fn index_from(text: Seq<char>, c: char, from: int) -> int
    decreases text.len() - from,
{
    if from < 0 || from >= text.len() {
        text.len() as int
    } else if text[from] == c {
        from
    } else {
        index_from(text, c, from + 1)
    }
}

/// The descriptor that a text spells, if it spells one.
pub open spec fn descriptor_of(text: Seq<char>) -> Option<DescriptorView> {
    let colon = index_from(text, ':', 0);
    let at = index_from(text, '@', colon + 3);
    let slash = index_from(text, '/', at + 1);
    if colon == 0 || colon + 3 > text.len() || text[colon + 1] != '/' || text[colon + 2] != '/' {
        None
    } else if at == colon + 3 || at >= text.len() {
        None
    } else if slash == at + 1 || slash + 1 >= text.len() {
        None
    } else {
        Some(
            DescriptorView {
                protocol: text.subrange(0, colon),
                key: text.subrange(colon + 3, at),
                host: text.subrange(at + 1, slash),
                project: text.subrange(slash + 1, text.len() as int),
            },
        )
    }
}

/// Where a character first occurs from a position on.
pub proof fn lemma_index_from(text: Seq<char>, c: char, from: int, found: int)
    requires
        0 <= from <= found <= text.len(),
        forall|i: int| from <= i < found ==> text[i] != c,
        found < text.len() ==> text[found] == c,
    ensures
        index_from(text, c, from) == found,
    decreases found - from,
{
    if from < found {
        lemma_index_from(text, c, from + 1, found);
    }
}

/// What the first occurrence of a character is.
pub proof fn lemma_index_from_is_first(text: Seq<char>, c: char, from: int)
    requires
        0 <= from,
    ensures
        from <= text.len() ==> from <= index_from(text, c, from) <= text.len(),
        forall|i: int| from <= i < index_from(text, c, from) ==> text[i] != c,
        index_from(text, c, from) < text.len() ==> text[index_from(text, c, from)] == c,
    decreases text.len() - from,
{
    if from < text.len() && text[from] != c {
        lemma_index_from_is_first(text, c, from + 1);
    }
}

/// A text spells a descriptor exactly when it is a well-formed descriptor
/// written out, and then it spells that descriptor.
pub proof fn lemma_descriptor_is_exact(text: Seq<char>, descriptor: DescriptorView)
    ensures
        descriptor_of(text) == Some(descriptor) <==> descriptor.wf() && descriptor.text() == text,
{
    if descriptor_of(text) == Some(descriptor) {
        let colon = index_from(text, ':', 0);
        lemma_index_from_is_first(text, ':', 0);
        let at = index_from(text, '@', colon + 3);
        lemma_index_from_is_first(text, '@', colon + 3);
        let slash = index_from(text, '/', at + 1);
        lemma_index_from_is_first(text, '/', at + 1);
        assert(descriptor.text() =~= text);
        assert(!descriptor.protocol.contains(':')) by {
            if descriptor.protocol.contains(':') {
                let i = choose|i: int|
                    0 <= i < descriptor.protocol.len() && descriptor.protocol[i] == ':';
                assert(text[i] == ':');
            }
        }
        assert(!descriptor.key.contains('@')) by {
            if descriptor.key.contains('@') {
                let i = choose|i: int| 0 <= i < descriptor.key.len() && descriptor.key[i] == '@';
                assert(text[colon + 3 + i] == '@');
            }
        }
        assert(!descriptor.host.contains('/')) by {
            if descriptor.host.contains('/') {
                let i = choose|i: int| 0 <= i < descriptor.host.len() && descriptor.host[i] == '/';
                assert(text[at + 1 + i] == '/');
            }
        }
    }
    if descriptor.wf() && descriptor.text() == text {
        let colon = descriptor.protocol.len() as int;
        let at = colon + 3 + descriptor.key.len();
        let slash = at + 1 + descriptor.host.len();
        assert forall|i: int| 0 <= i < colon implies text[i] != ':' by {
            assert(text[i] == descriptor.protocol[i]);
        }
        lemma_index_from(text, ':', 0, colon);
        assert forall|i: int| colon + 3 <= i < at implies text[i] != '@' by {
            assert(text[i] == descriptor.key[i - colon - 3]);
        }
        lemma_index_from(text, '@', colon + 3, at);
        assert forall|i: int| at + 1 <= i < slash implies text[i] != '/' by {
            assert(text[i] == descriptor.host[i - at - 1]);
        }
        lemma_index_from(text, '/', at + 1, slash);
        let found = descriptor_of(text)->0;
        assert(found.protocol =~= descriptor.protocol);
        assert(found.key =~= descriptor.key);
        assert(found.host =~= descriptor.host);
        assert(found.project =~= descriptor.project);
    }
}

/// Finds the first position at or after `from` that holds `c`.
fn find_from(text: &str, len: usize, c: char, from: usize) -> (found: usize)
    requires
        len == text@.len(),
    ensures
        found == index_from(text@, c, from as int),
        found <= len,
        from <= len ==> from <= found,
{
    proof {
        lemma_index_from_is_first(text@, c, from as int);
    }
    if from >= len {
        return len;
    }
    let mut i: usize = from;
    while i < len && text.get_char(i) != c
        invariant
            from <= i <= len,
            len == text@.len(),
            forall|j: int| from <= j < i ==> text@[j] != c,
        decreases len - i,
    {
        i += 1;
    }
    proof {
        lemma_index_from(text@, c, from as int, i as int);
    }
    i
}

/// Reads a connection descriptor.
///
/// Yields the four parts of a text of the form `protocol://key@host/project`,
/// and nothing for any other text.
pub fn parse_descriptor(text: &str) -> (parsed: Option<SinkDescriptor>)
    ensures
        match parsed {
            Some(descriptor) => descriptor_of(text@) == Some(descriptor@) && descriptor@.wf()
                && descriptor@.text() == text@,
            None => descriptor_of(text@) is None,
        },
{
    let len: usize = text.unicode_len();
    let colon: usize = find_from(text, len, ':', 0);
    if colon == 0 || len < 3 || colon > len - 3 {
        return None;
    }
    if text.get_char(colon + 1) != '/' || text.get_char(colon + 2) != '/' {
        return None;
    }
    let at: usize = find_from(text, len, '@', colon + 3);
    if at == colon + 3 || at >= len {
        return None;
    }
    let slash: usize = find_from(text, len, '/', at + 1);
    if slash == at + 1 || slash >= len - 1 {
        return None;
    }
    let descriptor = SinkDescriptor {
        protocol: String::from_str(text.substring_char(0, colon)),
        key: String::from_str(text.substring_char(colon + 3, at)),
        host: String::from_str(text.substring_char(at + 1, slash)),
        project: String::from_str(text.substring_char(slash + 1, len)),
    };
    proof {
        lemma_descriptor_is_exact(text@, descriptor@);
    }
    Some(descriptor)
}

} // verus!
