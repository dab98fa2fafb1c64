//! Who is locked in.

use vstd::prelude::*;

use crate::text::{is_control, is_white, trim};

verus! {

/// The first buffer a user database gets.
pub const INITIAL_BUFFER_SIZE: usize = 1024;

/// The last buffer a user database gets.
pub const MAX_BUFFER_SIZE: usize = 1_048_576;

/// The user whose session is locked.
#[derive(Debug)]
pub struct Identity {
    pub uid: u32,
    pub username: String,
    pub display_name: String,
}

/// Why the user could not be named.
#[derive(Debug)]
pub enum IdentityError {
    NotFound,
    Invalid,
    System(String),
}

impl IdentityError {
    pub open spec fn text(self) -> Seq<char> {
        match self {
            IdentityError::NotFound => "could not resolve the real user ID through NSS"@,
            IdentityError::Invalid => "NSS returned an invalid login identity"@,
            IdentityError::System(reason) => "could not resolve the real user ID: "@ + reason@,
        }
    }

    /// The error as a sentence.
    pub fn message(&self) -> (text: String)
        ensures
            text@ == self.text(),
    {
        match self {
            IdentityError::NotFound => "could not resolve the real user ID through NSS".to_owned(),
            IdentityError::Invalid => "NSS returned an invalid login identity".to_owned(),
            IdentityError::System(reason) => crate::text::joined(
                "could not resolve the real user ID: ",
                reason.as_str(),
            ),
        }
    }
}

/// The next buffer to try where one was too small, until the last.
pub open spec fn grown(size: usize) -> Option<usize> {
    if size >= MAX_BUFFER_SIZE {
        None
    } else if 2 * size > MAX_BUFFER_SIZE {
        Some(MAX_BUFFER_SIZE)
    } else {
        Some((2 * size) as usize)
    }
}

/// The next buffer to try where one was too small, until the last.
pub fn next_buffer_size(size: usize) -> (next: Option<usize>)
    ensures
        next == grown(size),
{
    if size >= MAX_BUFFER_SIZE {
        return None;
    }
    if size > MAX_BUFFER_SIZE / 2 {
        Some(MAX_BUFFER_SIZE)
    } else {
        Some(size * 2)
    }
}

/// The full name in a user's record: what comes before the first comma.
pub open spec fn full_name(gecos: Seq<char>) -> Seq<char>
    decreases gecos.len(),
{
    if gecos.len() == 0 || gecos[0] == ',' {
        Seq::empty()
    } else {
        seq![gecos[0]] + full_name(gecos.skip(1))
    }
}

/// The full name in a user's record: what comes before the first comma.
pub fn gecos_name(gecos: &str) -> (name: String)
    ensures
        name@ == full_name(gecos@),
{
    let mut name = String::new();
    let mut open = true;
    assert(gecos@.skip(0) =~= gecos@);
    for character in iter: gecos.chars()
        invariant
            iter.seq() == gecos@,
            open ==> full_name(gecos@) == name@ + full_name(gecos@.skip(iter.index() as int)),
            !open ==> full_name(gecos@) == name@,
    {
        let ghost rest = gecos@.skip(iter.index() as int);
        assert(rest[0] == character);
        assert(rest.skip(1) =~= gecos@.skip(iter.index() + 1));
        if open {
            if character == ',' {
                open = false;
                assert(name@ + Seq::<char>::empty() =~= name@);
            } else {
                let ghost before = name@;
                name.push(character);
                assert(name@ + full_name(rest.skip(1)) =~= before + (seq![character] + full_name(
                    rest.skip(1),
                )));
            }
        }
    }
    assert(gecos@.skip(gecos@.len() as int) =~= Seq::<char>::empty());
    assert(name@ + Seq::<char>::empty() =~= name@);
    name
}

/// The most characters a user name has.
pub const MAX_USERNAME_CHARACTERS: usize = 256;

/// Whether an account may be called by this name: it is not empty, not too long, and
/// holds neither white space nor characters that control or format text.
pub open spec fn username_valid(name: Seq<char>) -> bool {
    &&& 1 <= name.len() <= MAX_USERNAME_CHARACTERS
    &&& forall|index: int|
        0 <= index < name.len() ==> !crate::text::white(#[trigger] name[index])
            && !invisible(name[index])
}

/// Whether an account may be called by this name.
pub fn valid_username(name: &str) -> (valid: bool)
    ensures
        valid == username_valid(name@),
{
    let mut count: usize = 0;
    for character in iter: name.chars()
        invariant
            iter.seq() == name@,
            count == iter.index(),
            count <= MAX_USERNAME_CHARACTERS,
            forall|index: int|
                0 <= index < iter.index() ==> !crate::text::white(#[trigger] name@[index])
                    && !invisible(name@[index]),
    {
        if count >= MAX_USERNAME_CHARACTERS || is_white(character) || is_invisible(character) {
            assert(name@[iter.index() as int] == character);
            return false;
        }
        count += 1;
    }
    count > 0
}

/// Whether a character controls or formats text and leaves no mark of its own.
pub open spec fn invisible(character: char) -> bool {
    let code = character as u32;
    ||| crate::text::control(character)
    ||| code == 0xad
    ||| 0x600 <= code <= 0x605
    ||| code == 0x61c
    ||| code == 0x6dd
    ||| code == 0x70f
    ||| 0x890 <= code <= 0x891
    ||| code == 0x8e2
    ||| code == 0x180e
    ||| 0x200b <= code <= 0x200f
    ||| 0x202a <= code <= 0x202e
    ||| 0x2060 <= code <= 0x2064
    ||| 0x2066 <= code <= 0x206f
    ||| code == 0xfeff
    ||| 0xfff9 <= code <= 0xfffb
    ||| code == 0xe_0001
    ||| 0xe_0020 <= code <= 0xe_007f
}

fn is_invisible(character: char) -> (answer: bool)
    ensures
        answer == invisible(character),
{
    let code: u32 = character as u32;
    is_control(character) || code == 0xad || (0x600 <= code && code <= 0x605) || code == 0x61c
        || code == 0x6dd || code == 0x70f || (0x890 <= code && code <= 0x891) || code == 0x8e2
        || code == 0x180e || (0x200b <= code && code <= 0x200f) || (0x202a <= code && code
        <= 0x202e) || (0x2060 <= code && code <= 0x2064) || (0x2066 <= code && code <= 0x206f)
        || code == 0xfeff || (0xfff9 <= code && code <= 0xfffb) || code == 0xe_0001 || (0xe_0020
        <= code && code <= 0xe_007f)
}

/// The characters of a text that can be seen or keep others apart.
pub open spec fn visible(text: Seq<char>) -> Seq<char>
    decreases text.len(),
{
    if text.len() == 0 {
        Seq::empty()
    } else if invisible(text.last()) {
        visible(text.drop_last())
    } else {
        visible(text.drop_last()).push(text.last())
    }
}

/// A name as it can be shown, if anything of it can be seen.
pub open spec fn label_of(name: Seq<char>) -> Option<Seq<char>> {
    let shown = crate::text::trimmed(visible(name));
    if shown.len() == 0 {
        None
    } else {
        Some(shown)
    }
}

/// A name as it can be shown, if anything of it can be seen.
pub fn presentation_label(name: &str) -> (label: Option<String>)
    ensures
        (match label {
            Some(label) => Some(label@),
            None => None,
        }) == label_of(name@),
{
    let mut shown = String::new();
    assert(name@.take(0) =~= Seq::<char>::empty());
    for character in iter: name.chars()
        invariant
            iter.seq() == name@,
            shown@ == visible(name@.take(iter.index() as int)),
    {
        assert(name@.take(iter.index() + 1).drop_last() =~= name@.take(iter.index() as int));
        if !is_invisible(character) {
            shown.push(character);
        }
    }
    assert(name@.take(name@.len() as int) =~= name@);
    let label = trim(shown.as_str());
    if label.as_str().is_empty() {
        None
    } else {
        Some(label)
    }
}

/// Makes an identity of a user's record: the name has to be a valid one, and what can
/// be shown of the full name is shown, or else the user name.
pub fn identify(uid: u32, username: Option<String>, gecos: &str) -> (identity: Result<
    Identity,
    IdentityError,
>)
    ensures
        match username {
            Some(username) => if username_valid(username@) {
                identity matches Ok(identity) && identity.uid == uid && identity.username
                    == username && identity.display_name@ == (match label_of(full_name(gecos@)) {
                    Some(label) => label,
                    None => username@,
                })
            } else {
                identity == Err::<Identity, IdentityError>(IdentityError::Invalid)
            },
            None => identity == Err::<Identity, IdentityError>(IdentityError::Invalid),
        },
{
    let username = match username {
        Some(username) => username,
        None => return Err(IdentityError::Invalid),
    };
    if !valid_username(username.as_str()) {
        return Err(IdentityError::Invalid);
    }
    let display_name = match presentation_label(gecos_name(gecos).as_str()) {
        Some(label) => label,
        None => username.as_str().to_owned(),
    };
    Ok(Identity { uid, username, display_name })
}

/// Buffers grow to the last one and then no more.
pub proof fn law_buffers_grow_and_stop(size: usize)
    requires
        size > 0,
    ensures
        grown(size) matches Some(next) ==> size < next <= MAX_BUFFER_SIZE,
        grown(MAX_BUFFER_SIZE) is None,
{
}

/// A buffer that was too small is followed by one of twice the size, up to a mebibyte,
/// and by none from there on.
pub proof fn law_buffers_are_doubled(size: usize)
    ensures
        grown(size) is None <==> size >= 1_048_576,
        size <= 524_288 ==> grown(size) == Some((2 * size) as usize),
        524_288 <= size < 1_048_576 ==> grown(size) == Some(1_048_576usize),
{
}

/// A full name ends at the first comma, and is the whole record where there is none.
pub proof fn law_full_names_end_at_the_first_comma(name: Seq<char>, rest: Seq<char>)
    requires
        !name.contains(','),
    ensures
        full_name(name) == name,
        full_name(name + seq![','] + rest) == name,
    decreases name.len(),
{
    if name.len() == 0 {
        assert(name =~= Seq::<char>::empty());
        assert((name + seq![','] + rest)[0] == ',');
    } else {
        let tail = name.skip(1);
        assert(name[0] != ',') by {
            assert(name.contains(name[0]));
        }
        assert(!tail.contains(',')) by {
            if tail.contains(',') {
                let at = choose|at: int| 0 <= at < tail.len() && tail[at] == ',';
                assert(name[at + 1] == ',');
            }
        }
        law_full_names_end_at_the_first_comma(tail, rest);
        assert((name + seq![','] + rest).skip(1) =~= tail + seq![','] + rest);
        assert(name =~= seq![name[0]] + tail);
    }
}

/// A name may be an account's where it has between one and 256 characters, each of which
/// may stand in a name by itself.
pub proof fn law_names_are_valid_character_by_character(name: Seq<char>)
    ensures
        username_valid(name) <==> {
            &&& 1 <= name.len() <= 256
            &&& forall|index: int|
                0 <= index < name.len() ==> username_valid(seq![#[trigger] name[index]])
        },
{
    if 1 <= name.len() <= 256 {
        assert forall|index: int| 0 <= index < name.len() implies username_valid(
            seq![#[trigger] name[index]],
        ) == (!crate::text::white(name[index]) && !invisible(name[index])) by {
            let alone = seq![name[index]];
            assert(alone[0] == name[index]);
        }
        if forall|index: int|
            0 <= index < name.len() ==> username_valid(seq![#[trigger] name[index]]) {
            assert forall|index: int| 0 <= index < name.len() implies !crate::text::white(
                #[trigger] name[index],
            ) && !invisible(name[index]) by {
                assert(username_valid(seq![name[index]]));
            }
        }
    }
}

/// A character leaves no mark exactly where it lies outside the blocks of those that do.
pub proof fn law_marks_fill_their_blocks(character: char)
    ensures
        ({
            let code = character as int;
            !invisible(character) <==> {
                ||| 0x20 <= code < 0x7f
                ||| 0xa0 <= code < 0xad
                ||| 0xad < code < 0x600
                ||| 0x605 < code < 0x61c
                ||| 0x61c < code < 0x6dd
                ||| 0x6dd < code < 0x70f
                ||| 0x70f < code < 0x890
                ||| 0x891 < code < 0x8e2
                ||| 0x8e2 < code < 0x180e
                ||| 0x180e < code < 0x200b
                ||| 0x200f < code < 0x202a
                ||| 0x202e < code < 0x2060
                ||| code == 0x2065
                ||| 0x206f < code < 0xfeff
                ||| 0xfeff < code < 0xfff9
                ||| 0xfffb < code < 0xe_0001
                ||| 0xe_0001 < code < 0xe_0020
                ||| 0xe_007f < code
            }
        }),
{
}

/// What can be seen of two texts is what can be seen of them together, and of one
/// character itself or nothing.
pub proof fn law_what_is_seen_is_seen_in_its_place(
    first: Seq<char>,
    second: Seq<char>,
    character: char,
)
    ensures
        visible(first + second) == visible(first) + visible(second),
        visible(seq![character]) == if invisible(character) {
            Seq::empty()
        } else {
            seq![character]
        },
    decreases second.len(),
{
    reveal_with_fuel(visible, 2);
    assert(seq![character].drop_last() =~= Seq::<char>::empty());
    assert(Seq::<char>::empty().push(character) =~= seq![character]);
    if second.len() == 0 {
        assert(first + second =~= first);
        assert(visible(first) + visible(second) =~= visible(first));
    } else {
        let shorter = second.drop_last();
        assert((first + second).drop_last() =~= first + shorter);
        assert((first + second).last() == second.last());
        law_what_is_seen_is_seen_in_its_place(first, shorter, character);
        if !invisible(second.last()) {
            assert((visible(first) + visible(shorter)).push(second.last()) =~= visible(first)
                + visible(shorter).push(second.last()));
        }
    }
}

/// A name can be shown where any character of it leaves a mark that is not white space.
/// It is then shown without the characters that leave none, and without white space at
/// its ends.
pub proof fn law_shown_names_can_be_read(name: Seq<char>)
    ensures
        label_of(name) is Some <==> exists|index: int|
            0 <= index < name.len() && !crate::text::white(#[trigger] name[index]) && !invisible(
                name[index],
            ),
        label_of(name) matches Some(label) ==> {
            &&& label.len() > 0
            &&& !crate::text::white(label[0])
            &&& !crate::text::white(label.last())
            &&& forall|index: int|
                0 <= index < label.len() ==> !invisible(#[trigger] label[index])
        },
{
    let seen = visible(name);
    let shown = crate::text::trimmed(seen);
    let ends = crate::text::law_trimming_takes_white_space_from_the_ends(seen);
    lemma_seen(name);
    if exists|index: int|
        0 <= index < name.len() && !crate::text::white(#[trigger] name[index]) && !invisible(
            name[index],
        ) {
        let index = choose|index: int|
            0 <= index < name.len() && !crate::text::white(#[trigger] name[index]) && !invisible(
                name[index],
            );
        assert(seen.contains(name[index]));
        let at = choose|at: int| 0 <= at < seen.len() && seen[at] == name[index];
        if shown.len() == 0 {
            if at < ends.0.len() {
                assert(ends.0[at] == seen[at]);
            } else {
                assert(ends.1[at - ends.0.len()] == seen[at]);
            }
        }
    }
    if shown.len() > 0 {
        assert forall|index: int| 0 <= index < shown.len() implies !invisible(
            #[trigger] shown[index],
        ) by {
            assert(seen[ends.0.len() + index] == shown[index]);
        }
        assert(seen[ends.0.len() as int] == shown[0]);
        assert(name.contains(shown[0]));
    }
}

proof fn lemma_seen(name: Seq<char>)
    ensures
        forall|index: int|
            0 <= index < visible(name).len() ==> !invisible(#[trigger] visible(name)[index])
                && name.contains(visible(name)[index]),
        forall|index: int|
            0 <= index < name.len() && !invisible(#[trigger] name[index]) ==> visible(
                name,
            ).contains(name[index]),
    decreases name.len(),
{
    if name.len() > 0 {
        let shorter = name.drop_last();
        lemma_seen(shorter);
        let before = visible(shorter);
        let after = visible(name);
        assert forall|index: int| 0 <= index < after.len() implies !invisible(
            #[trigger] after[index],
        ) && name.contains(after[index]) by {
            if index < before.len() {
                assert(before[index] == after[index]);
                let at = choose|at: int| 0 <= at < shorter.len() && shorter[at] == before[index];
                assert(name[at] == after[index]);
            } else {
                assert(name[name.len() - 1] == after[index]);
            }
        }
        assert forall|index: int| 0 <= index < name.len() && !invisible(
            #[trigger] name[index],
        ) implies after.contains(name[index]) by {
            if index < shorter.len() {
                assert(shorter[index] == name[index]);
                assert(before.contains(shorter[index]));
                let at = choose|at: int| 0 <= at < before.len() && before[at] == name[index];
                assert(after[at] == name[index]);
            } else {
                assert(after[after.len() - 1] == name[index]);
            }
        }
    }
}

} // verus!
