//! What comes of a file that is made, written and closed: what is staged, what is sent,
//! and what stays as it was.

use crate::device::{
    is_first_coil, is_first_register, lemma_first_coil, lemma_first_register, lemma_no_register,
};
use crate::device_description::{AccessRight, DataType};
use crate::filesystem::{first_named, Errno, FileAttr, InfusedFilesystem, Node, Owner, WriteMode};
use crate::filesystem_laws::{law_masks_text_reads_back, lemma_split_words_word};
use crate::inode::INodeNo;
use crate::numbers;
use crate::parsing::{
    hex_dump, integer_reading, is_readable, law_coil_text_reads_back, law_record_text_reads_back,
    law_register_text_reads_back, masks_reading, reads_as,
};
use crate::paths::lemma_found;
use crate::table::NameTable;
use crate::text::{
    all_spaces, is_space, law_only_white_space_is_trimmed, split_words, trimmed, words,
};
use crate::values::{CoilValue, Float32, Float64, RegisterValue, Staged, StagedValue};
use crate::writing::overwritten;
use vstd::prelude::*;

verus! {

/// Whether `text` is a single word.
pub open spec fn is_word(text: Seq<char>) -> bool {
    &&& text.len() > 0
    &&& forall|i: int| 0 <= i < text.len() ==> !is_space(#[trigger] text[i])
}

proof fn lemma_split_spaces(s: Seq<char>, spaces: Seq<char>)
    requires
        all_spaces(spaces),
        split_words(s).1.len() == 0 || spaces.len() > 0,
    ensures
        split_words(s + spaces) == (
            if split_words(s).1.len() > 0 {
                split_words(s).0.push(split_words(s).1)
            } else {
                split_words(s).0
            },
            Seq::<char>::empty(),
        ),
    decreases spaces.len(),
{
    let whole = s + spaces;
    if spaces.len() == 0 {
        assert(whole =~= s);
        assert(split_words(s).1 =~= Seq::<char>::empty());
    } else {
        let rest = spaces.drop_last();
        assert(is_space(spaces[spaces.len() - 1]));
        assert(whole.drop_last() =~= s + rest);
        assert(whole.last() == spaces.last());
        assert(all_spaces(rest)) by {
            assert forall|i: int| 0 <= i < rest.len() implies is_space(#[trigger] rest[i]) by {
                assert(rest[i] == spaces[i]);
            }
        }
        if rest.len() == 0 {
            assert(s + rest =~= s);
            if split_words(s).1.len() == 0 {
                assert(split_words(s).1 =~= Seq::<char>::empty());
            }
        } else {
            lemma_split_spaces(s, rest);
        }
    }
}

/// A word with white space around it is the only word of the whole.
proof fn lemma_one_word(before: Seq<char>, word: Seq<char>, after: Seq<char>)
    requires
        all_spaces(before),
        all_spaces(after),
        is_word(word),
    ensures
        words(before + word + after) == seq![word],
{
    let empty = Seq::<char>::empty();
    assert(empty + before =~= before);
    assert(split_words(empty) == (Seq::<Seq<char>>::empty(), empty));
    lemma_split_spaces(empty, before);
    assert(split_words(before) == (Seq::<Seq<char>>::empty(), empty)) by {
        if before.len() == 0 {
            assert(before =~= empty);
        }
    }
    lemma_split_words_word(before, word);
    assert(empty + word =~= word);
    assert(split_words(before + word) == (Seq::<Seq<char>>::empty(), word));
    if after.len() > 0 {
        lemma_split_spaces(before + word, after);
    } else {
        assert(before + word + after =~= before + word);
    }
    assert(words(before + word + after) =~= seq![word]);
}

impl InfusedFilesystem {
    /// The file of a register that is made in `transactions/`, written with the text of a
    /// value of its type, with any white space around it, and closed, stages that very
    /// value under the name of the register, and changes nothing else that is staged.
    pub proof fn law_written_register_is_staged<
        S: Fn(&str) -> Option<Float32>,
        D: Fn(&str) -> Option<Float64>,
    >(
        start: Self,
        made: Self,
        written: Self,
        closed: Self,
        single: S,
        double: D,
        caller: Owner,
        name: Seq<char>,
        reply: Result<(FileAttr, Option<NameTable<StagedValue>>), Errno>,
        written_reply: Result<u32, Errno>,
        sent: Option<NameTable<StagedValue>>,
        r: int,
        value: RegisterValue,
        before: Seq<char>,
        after: Seq<char>,
    )
        requires
            start.in_order(),
            start.write_mode == WriteMode::Staged,
            name != "TRANSACTION_END"@,
            is_first_register(start.registers@, r, name),
            start.registers@[r].data_type == value.kind(),
            is_readable(single, double, value),
            is_word(value.text()),
            all_spaces(before),
            all_spaces(after),
            made.same_but_transactions(start),
            Self::creates(start, made, caller, start.transactions_ino, Some(name), reply),
            written.same_but_transactions(made),
            written.transactions.same_files(made.transactions),
            written.transactions.pending == made.transactions.pending,
            Self::writes_bytes(
                made,
                written,
                reply->Ok_0.0.ino,
                0,
                vstd::utf8::encode_utf8(before + value.text() + after),
                written_reply,
            ),
            Self::closes(written, closed, single, double, reply->Ok_0.0.ino, sent),
        ensures
            reply is Ok,
            written_reply is Ok,
            sent is None,
            closed.transactions.pending@ == start.transactions.pending@.insert(
                name,
                StagedValue::Register(value),
            ),
    {
        let text = before + value.text() + after;
        lemma_first_register(start.registers@, r, name);
        Self::lemma_closed_text(
            start,
            made,
            written,
            closed,
            single,
            double,
            caller,
            name,
            reply,
            written_reply,
            sent,
            text,
        );
        lemma_one_word(before, value.text(), after);
        assert(masks_reading(text) is None);
        let staged = choose|staged: Option<StagedValue>|
            {
                &&& #[trigger] written.stages(single, double, name, text, staged)
                &&& closed.transactions.pending@ == match staged {
                    Some(value) => start.transactions.pending@.insert(name, value),
                    None => start.transactions.pending@,
                }
            };
        let read = choose|read: Option<RegisterValue>|
            {
                &&& #[trigger] reads_as(
                    single,
                    double,
                    start.registers@[r].data_type,
                    text,
                    read,
                )
                &&& staged == match read {
                    Some(v) => Some(StagedValue::Register(v)),
                    None => None,
                }
            };
        law_register_text_reads_back(single, double, value, before, after, read);
    }

    /// The file of a coil that is made in `transactions/`, written with the text of a
    /// value, with any white space around it, and closed, stages that very value under the
    /// name of the coil, and changes nothing else that is staged. No register has the
    /// name.
    pub proof fn law_written_coil_is_staged<
        S: Fn(&str) -> Option<Float32>,
        D: Fn(&str) -> Option<Float64>,
    >(
        start: Self,
        made: Self,
        written: Self,
        closed: Self,
        single: S,
        double: D,
        caller: Owner,
        name: Seq<char>,
        reply: Result<(FileAttr, Option<NameTable<StagedValue>>), Errno>,
        written_reply: Result<u32, Errno>,
        sent: Option<NameTable<StagedValue>>,
        c: int,
        value: CoilValue,
        before: Seq<char>,
        after: Seq<char>,
    )
        requires
            start.in_order(),
            start.write_mode == WriteMode::Staged,
            name != "TRANSACTION_END"@,
            is_first_coil(start.coils@, c, name),
            forall|j: int|
                0 <= j < start.registers@.len() ==> (#[trigger] start.registers@[j]).name@ != name,
            all_spaces(before),
            all_spaces(after),
            made.same_but_transactions(start),
            Self::creates(start, made, caller, start.transactions_ino, Some(name), reply),
            written.same_but_transactions(made),
            written.transactions.same_files(made.transactions),
            written.transactions.pending == made.transactions.pending,
            Self::writes_bytes(
                made,
                written,
                reply->Ok_0.0.ino,
                0,
                vstd::utf8::encode_utf8(before + value.text() + after),
                written_reply,
            ),
            Self::closes(written, closed, single, double, reply->Ok_0.0.ino, sent),
        ensures
            reply is Ok,
            written_reply is Ok,
            sent is None,
            closed.transactions.pending@ == start.transactions.pending@.insert(
                name,
                StagedValue::Coil(value),
            ),
    {
        let text = before + value.text() + after;
        lemma_first_coil(start.coils@, c, name);
        lemma_no_register(start.registers@, name);
        Self::lemma_closed_text(
            start,
            made,
            written,
            closed,
            single,
            double,
            caller,
            name,
            reply,
            written_reply,
            sent,
            text,
        );
        law_coil_text_reads_back(value, before, after);
    }

    /// The file of a register that is made in `transactions/`, written with the text of two
    /// masks and closed, stages these masks under the name of the register.
    pub proof fn law_written_masks_are_staged<
        S: Fn(&str) -> Option<Float32>,
        D: Fn(&str) -> Option<Float64>,
    >(
        start: Self,
        made: Self,
        written: Self,
        closed: Self,
        single: S,
        double: D,
        caller: Owner,
        name: Seq<char>,
        reply: Result<(FileAttr, Option<NameTable<StagedValue>>), Errno>,
        written_reply: Result<u32, Errno>,
        sent: Option<NameTable<StagedValue>>,
        r: int,
        and_mask: u16,
        or_mask: u16,
    )
        requires
            start.in_order(),
            start.write_mode == WriteMode::Staged,
            name != "TRANSACTION_END"@,
            is_first_register(start.registers@, r, name),
            made.same_but_transactions(start),
            Self::creates(start, made, caller, start.transactions_ino, Some(name), reply),
            written.same_but_transactions(made),
            written.transactions.same_files(made.transactions),
            written.transactions.pending == made.transactions.pending,
            Self::writes_bytes(
                made,
                written,
                reply->Ok_0.0.ino,
                0,
                vstd::utf8::encode_utf8(
                    (Staged::MaskedRegister { and_mask, or_mask }).text() + seq!['\n'],
                ),
                written_reply,
            ),
            Self::closes(written, closed, single, double, reply->Ok_0.0.ino, sent),
        ensures
            reply is Ok,
            written_reply is Ok,
            sent is None,
            closed.transactions.pending@ == start.transactions.pending@.insert(
                name,
                StagedValue::MaskedRegister { and_mask, or_mask },
            ),
    {
        let own = (Staged::MaskedRegister { and_mask, or_mask }).text();
        let text = own + seq!['\n'];
        lemma_first_register(start.registers@, r, name);
        law_masks_text_reads_back(and_mask, or_mask);
        assert(text =~= own.push('\n'));
        Self::lemma_closed_text(
            start,
            made,
            written,
            closed,
            single,
            double,
            caller,
            name,
            reply,
            written_reply,
            sent,
            text,
        );
    }

    /// A file in `transactions/` of an integer register or of a coil into which nothing but
    /// white space was written stages nothing.
    pub proof fn law_white_space_stages_nothing<
        S: Fn(&str) -> Option<Float32>,
        D: Fn(&str) -> Option<Float64>,
    >(
        start: Self,
        made: Self,
        written: Self,
        closed: Self,
        single: S,
        double: D,
        caller: Owner,
        name: Seq<char>,
        reply: Result<(FileAttr, Option<NameTable<StagedValue>>), Errno>,
        written_reply: Result<u32, Errno>,
        sent: Option<NameTable<StagedValue>>,
        text: Seq<char>,
    )
        requires
            start.in_order(),
            start.write_mode == WriteMode::Staged,
            name != "TRANSACTION_END"@,
            start.stageable(name),
            forall|i: int|
                0 <= i < start.registers@.len() && (#[trigger] start.registers@[i]).name@ == name
                    ==> start.registers@[i].data_type != DataType::F32
                    && start.registers@[i].data_type != DataType::F64,
            all_spaces(text),
            made.same_but_transactions(start),
            Self::creates(start, made, caller, start.transactions_ino, Some(name), reply),
            written.same_but_transactions(made),
            written.transactions.same_files(made.transactions),
            written.transactions.pending == made.transactions.pending,
            Self::writes_bytes(
                made,
                written,
                reply->Ok_0.0.ino,
                0,
                vstd::utf8::encode_utf8(text),
                written_reply,
            ),
            Self::closes(written, closed, single, double, reply->Ok_0.0.ino, sent),
        ensures
            sent is None,
            closed.transactions.pending@ == start.transactions.pending@,
    {
        Self::lemma_closed_text(
            start,
            made,
            written,
            closed,
            single,
            double,
            caller,
            name,
            reply,
            written_reply,
            sent,
            text,
        );
        lemma_found(start.registers@, name);
        lemma_no_words(text);
        assert(masks_reading(text) is None);
        lemma_nothing_left(text);
        let nothing = trimmed(text);
        assert(nothing.len() == 0);
        assert(nothing != seq!['0']) by {
            assert(seq!['0'].len() == 1);
        }
        assert(nothing != seq!['1']) by {
            assert(seq!['1'].len() == 1);
        }
        if let Some(i) = first_named(start.registers@, name) {
            assert(start.registers@[i].name@ == name);
            assert(integer_reading(start.registers@[i].data_type, nothing) is None);
        }
    }

    /// What was written into a file is read once: closing the file forgets it, and nothing
    /// that was written into another.
    pub proof fn law_closing_forgets_what_was_written<
        S: Fn(&str) -> Option<Float32>,
        D: Fn(&str) -> Option<Float64>,
    >(
        before: Self,
        after: Self,
        single: S,
        double: D,
        ino: INodeNo,
        other: u64,
        sent: Option<NameTable<StagedValue>>,
    )
        requires
            Self::closes(before, after, single, double, ino, sent),
            before.transaction_at(ino) is Some || before.takes_direct_writes(ino),
            other != ino.0,
        ensures
            !after.transactions.buffers@.dom().contains(ino.0),
            after.transactions.buffers@.dom().contains(other)
                == before.transactions.buffers@.dom().contains(other),
            after.transactions.buffers@[other] == before.transactions.buffers@[other],
    {
    }

    /// Bytes that are no text stage nothing and send nothing.
    pub proof fn law_bytes_that_are_no_text_are_dropped<
        S: Fn(&str) -> Option<Float32>,
        D: Fn(&str) -> Option<Float64>,
    >(
        before: Self,
        after: Self,
        single: S,
        double: D,
        ino: INodeNo,
        sent: Option<NameTable<StagedValue>>,
    )
        requires
            Self::closes(before, after, single, double, ino, sent),
            before.transactions.buffers@.dom().contains(ino.0),
            !vstd::utf8::valid_utf8(before.transactions.buffers@[ino.0]@),
        ensures
            sent is None,
            after.transactions.pending@ == before.transactions.pending@,
    {
    }

    /// What is written into a file of `transactions/` is read as its text once it is
    /// closed.
    proof fn lemma_closed_text<S: Fn(&str) -> Option<Float32>, D: Fn(&str) -> Option<Float64>>(
        start: Self,
        made: Self,
        written: Self,
        closed: Self,
        single: S,
        double: D,
        caller: Owner,
        name: Seq<char>,
        reply: Result<(FileAttr, Option<NameTable<StagedValue>>), Errno>,
        written_reply: Result<u32, Errno>,
        sent: Option<NameTable<StagedValue>>,
        text: Seq<char>,
    )
        requires
            start.in_order(),
            start.write_mode == WriteMode::Staged,
            name != "TRANSACTION_END"@,
            start.stageable(name),
            made.same_but_transactions(start),
            Self::creates(start, made, caller, start.transactions_ino, Some(name), reply),
            written.same_but_transactions(made),
            written.transactions.same_files(made.transactions),
            written.transactions.pending == made.transactions.pending,
            Self::writes_bytes(
                made,
                written,
                reply->Ok_0.0.ino,
                0,
                vstd::utf8::encode_utf8(text),
                written_reply,
            ),
            Self::closes(written, closed, single, double, reply->Ok_0.0.ino, sent),
        ensures
            reply is Ok,
            written_reply is Ok,
            sent is None,
            exists|staged: Option<StagedValue>|
                {
                    &&& #[trigger] written.stages(single, double, name, text, staged)
                    &&& closed.transactions.pending@ == match staged {
                        Some(value) => start.transactions.pending@.insert(name, value),
                        None => start.transactions.pending@,
                    }
                },
    {
        let ino = reply->Ok_0.0.ino;
        let bytes = vstd::utf8::encode_utf8(text);
        vstd::utf8::encode_utf8_valid_utf8(text);
        vstd::utf8::encode_utf8_decode_utf8(text);
        assert(made.transactions.ino_to_name@.dom().contains(ino.0));
        assert(made.transactions.ino_to_name@[ino.0]@ == name);
        assert(overwritten(Seq::empty(), 0, bytes) =~= bytes);
        assert(written.transactions.buffers@[ino.0]@ == bytes);
    }

    /// Making `TRANSACTION_END` sends off exactly what is staged, each value under its
    /// name, and leaves nothing staged.
    pub proof fn law_transaction_end_sends_what_is_staged(
        before: Self,
        after: Self,
        caller: Owner,
        reply: Result<(FileAttr, Option<NameTable<StagedValue>>), Errno>,
        name: Seq<char>,
    )
        requires
            before.write_mode == WriteMode::Staged,
            Self::creates(
                before,
                after,
                caller,
                before.transactions_ino,
                Some("TRANSACTION_END"@),
                reply,
            ),
        ensures
            reply is Ok,
            before.transactions.pending@.dom().contains(name) ==> (reply->Ok_0.1 matches Some(
                values,
            ) && values@.dom().contains(name) && values@[name]
                == before.transactions.pending@[name]),
            !before.transactions.pending@.dom().contains(name) ==> (reply->Ok_0.1 matches Some(
                values,
            ) ==> !values@.dom().contains(name)),
            !after.transactions.pending@.dom().contains(name),
            !after.transactions.name_to_ino@.dom().contains(name),
    {
        if before.transactions.pending@.dom().contains(name) {
            assert(before.transactions.pending@ != Map::<Seq<char>, StagedValue>::empty());
        }
    }

    /// A file whose name is that of no register and no coil is not made in
    /// `transactions/`, and no file is made anywhere else.
    pub proof fn law_only_named_files_are_made(
        before: Self,
        after: Self,
        caller: Owner,
        parent: INodeNo,
        name: Seq<char>,
        reply: Result<(FileAttr, Option<NameTable<StagedValue>>), Errno>,
    )
        requires
            Self::creates(before, after, caller, parent, Some(name), reply),
            name != "TRANSACTION_END"@,
        ensures
            reply is Ok <==> parent == before.transactions_ino && before.write_mode
                == WriteMode::Staged && ((exists|i: int|
                0 <= i < before.registers@.len() && (#[trigger] before.registers@[i]).name@ == name)
                || (exists|i: int|
                0 <= i < before.coils@.len() && (#[trigger] before.coils@[i]).name@ == name)),
            reply matches Err(error) ==> error == (if parent == before.transactions_ino
                && before.write_mode == WriteMode::Staged {
                Errno::ENOENT
            } else {
                Errno::EPERM
            }),
    {
        lemma_found(before.registers@, name);
        lemma_found(before.coils@, name);
        if let Some(i) = crate::filesystem::first_named(before.registers@, name) {
            assert(before.registers@[i].name@ == name);
        }
        if let Some(i) = crate::filesystem::first_named(before.coils@, name) {
            assert(before.coils@[i].name@ == name);
        }
        assert(forall|i: int|
            0 <= i < before.registers@.len() && (#[trigger] before.registers@[i]).name@ == name
                ==> crate::filesystem::Named::label(&before.registers@[i]) == name);
        assert(forall|i: int|
            0 <= i < before.coils@.len() && (#[trigger] before.coils@[i]).name@ == name
                ==> crate::filesystem::Named::label(&before.coils@[i]) == name);
    }

    /// Whether what was written into `ino` is the text `text`, and `sent` comes of closing
    /// it.
    pub open spec fn closes_with<S: Fn(&str) -> Option<Float32>, D: Fn(&str) -> Option<Float64>>(
        before: Self,
        after: Self,
        single: S,
        double: D,
        ino: int,
        text: Seq<char>,
        sent: Option<NameTable<StagedValue>>,
    ) -> bool {
        &&& before.in_order()
        &&& before.write_mode == WriteMode::Direct
        &&& 0 <= ino <= u64::MAX
        &&& before.transactions.buffers@.dom().contains(ino as u64)
        &&& before.transactions.buffers@[ino as u64]@ == vstd::utf8::encode_utf8(text)
        &&& Self::closes(before, after, single, double, INodeNo(ino as u64), sent)
    }

    /// Whether `sent` is the one value `value` under `name`.
    pub open spec fn sends(
        sent: Option<NameTable<StagedValue>>,
        name: Seq<char>,
        value: Staged,
    ) -> bool {
        &&& sent matches Some(values)
        &&& values.items().len() == 1
        &&& values.items()[0].0@ == name
        &&& values.items()[0].1@ == value
    }

    proof fn lemma_direct<S: Fn(&str) -> Option<Float32>, D: Fn(&str) -> Option<Float64>>(
        before: Self,
        after: Self,
        single: S,
        double: D,
        ino: int,
        text: Seq<char>,
        sent: Option<NameTable<StagedValue>>,
    )
        requires
            Self::closes_with(before, after, single, double, ino, text, sent),
            before.takes_direct_writes(INodeNo(ino as u64)),
        ensures
            after.transactions.pending@ == before.transactions.pending@,
            before.writes(
                single,
                double,
                before.data_file_at(INodeNo(ino as u64))->0,
                text,
                match sent {
                    Some(values) => Some((values.items()[0].0@, values.items()[0].1@)),
                    None => None,
                },
            ),
            sent matches Some(values) ==> values.items().len() == 1,
    {
        vstd::utf8::encode_utf8_valid_utf8(text);
        vstd::utf8::encode_utf8_decode_utf8(text);
        before.law_inodes_do_not_collide(INodeNo(ino as u64));
        assert(before.transaction_at(INodeNo(ino as u64)) is None);
    }

    /// A server whose file of a register was written with the text of a value of its type
    /// hands out that very value under the name of that register once the file is closed,
    /// where the register may be written; where it may not, nothing.
    pub proof fn law_written_register_is_handed_out<
        S: Fn(&str) -> Option<Float32>,
        D: Fn(&str) -> Option<Float64>,
    >(
        before: Self,
        after: Self,
        single: S,
        double: D,
        sent: Option<NameTable<StagedValue>>,
        i: int,
        value: RegisterValue,
        front: Seq<char>,
        back: Seq<char>,
    )
        requires
            0 <= i < before.registers@.len(),
            before.registers@[i].data_type == value.kind(),
            is_readable(single, double, value),
            all_spaces(front),
            all_spaces(back),
            Self::closes_with(
                before,
                after,
                single,
                double,
                3 + i,
                front + value.text() + back,
                sent,
            ),
        ensures
            before.registers@[i].access == AccessRight::ReadWrite ==> Self::sends(
                sent,
                before.registers@[i].name@,
                Staged::Register(value),
            ),
            before.registers@[i].access == AccessRight::ReadOnly ==> sent is None,
    {
        let text = front + value.text() + back;
        let ino = INodeNo((3 + i) as u64);
        assert(before.data_file_at(ino) == Some(Node::Register(i)));
        if before.registers@[i].access == AccessRight::ReadWrite {
            Self::lemma_direct(before, after, single, double, 3 + i, text, sent);
            let direct = match sent {
                Some(values) => Some((values.items()[0].0@, values.items()[0].1@)),
                None => None,
            };
            let read = choose|read: Option<RegisterValue>|
                {
                    &&& #[trigger] reads_as(
                        single,
                        double,
                        before.registers@[i].data_type,
                        text,
                        read,
                    )
                    &&& direct == match read {
                        Some(v) => Some((before.registers@[i].name@, Staged::Register(v))),
                        None => None,
                    }
                };
            law_register_text_reads_back(single, double, value, front, back, read);
        } else {
            before.law_inodes_do_not_collide(ino);
            assert(before.transaction_at(ino) is None);
        }
    }

    /// The same of an input register.
    pub proof fn law_written_input_register_is_handed_out<
        S: Fn(&str) -> Option<Float32>,
        D: Fn(&str) -> Option<Float64>,
    >(
        before: Self,
        after: Self,
        single: S,
        double: D,
        sent: Option<NameTable<StagedValue>>,
        i: int,
        value: RegisterValue,
        front: Seq<char>,
        back: Seq<char>,
    )
        requires
            0 <= i < before.input_registers@.len(),
            before.input_registers@[i].data_type == value.kind(),
            is_readable(single, double, value),
            all_spaces(front),
            all_spaces(back),
            Self::closes_with(
                before,
                after,
                single,
                double,
                before.input_registers_ino.0 + 1 + i,
                front + value.text() + back,
                sent,
            ),
        ensures
            Self::sends(sent, before.input_registers@[i].name@, Staged::InputRegister(value)),
    {
        let text = front + value.text() + back;
        let at = before.input_registers_ino.0 + 1 + i;
        assert(before.data_file_at(INodeNo(at as u64)) == Some(Node::InputRegister(i)));
        Self::lemma_direct(before, after, single, double, at, text, sent);
        let direct = match sent {
            Some(values) => Some((values.items()[0].0@, values.items()[0].1@)),
            None => None,
        };
        let read = choose|read: Option<RegisterValue>|
            {
                &&& #[trigger] reads_as(
                    single,
                    double,
                    before.input_registers@[i].data_type,
                    text,
                    read,
                )
                &&& direct == match read {
                    Some(v) => Some((before.input_registers@[i].name@, Staged::InputRegister(v))),
                    None => None,
                }
            };
        law_register_text_reads_back(single, double, value, front, back, read);
    }

    /// The same of a coil.
    pub proof fn law_written_coil_is_handed_out<
        S: Fn(&str) -> Option<Float32>,
        D: Fn(&str) -> Option<Float64>,
    >(
        before: Self,
        after: Self,
        single: S,
        double: D,
        sent: Option<NameTable<StagedValue>>,
        i: int,
        value: CoilValue,
        front: Seq<char>,
        back: Seq<char>,
    )
        requires
            0 <= i < before.coils@.len(),
            all_spaces(front),
            all_spaces(back),
            Self::closes_with(
                before,
                after,
                single,
                double,
                before.coils_ino.0 + 1 + i,
                front + value.text() + back,
                sent,
            ),
        ensures
            Self::sends(sent, before.coils@[i].name@, Staged::Coil(value)),
    {
        let at = before.coils_ino.0 + 1 + i;
        assert(before.data_file_at(INodeNo(at as u64)) == Some(Node::Coil(i)));
        Self::lemma_direct(
            before,
            after,
            single,
            double,
            at,
            front + value.text() + back,
            sent,
        );
        law_coil_text_reads_back(value, front, back);
    }

    /// The same of a discrete input.
    pub proof fn law_written_discrete_input_is_handed_out<
        S: Fn(&str) -> Option<Float32>,
        D: Fn(&str) -> Option<Float64>,
    >(
        before: Self,
        after: Self,
        single: S,
        double: D,
        sent: Option<NameTable<StagedValue>>,
        i: int,
        value: CoilValue,
        front: Seq<char>,
        back: Seq<char>,
    )
        requires
            0 <= i < before.discrete_inputs@.len(),
            all_spaces(front),
            all_spaces(back),
            Self::closes_with(
                before,
                after,
                single,
                double,
                before.discrete_inputs_ino.0 + 1 + i,
                front + value.text() + back,
                sent,
            ),
        ensures
            Self::sends(sent, before.discrete_inputs@[i].name@, Staged::DiscreteInput(value)),
    {
        let at = before.discrete_inputs_ino.0 + 1 + i;
        assert(before.data_file_at(INodeNo(at as u64)) == Some(Node::DiscreteInput(i)));
        Self::lemma_direct(
            before,
            after,
            single,
            double,
            at,
            front + value.text() + back,
            sent,
        );
        law_coil_text_reads_back(value, front, back);
    }

    /// The same of a file record, which goes by its two numbers.
    pub proof fn law_written_record_is_handed_out<
        S: Fn(&str) -> Option<Float32>,
        D: Fn(&str) -> Option<Float64>,
    >(
        before: Self,
        after: Self,
        single: S,
        double: D,
        sent: Option<NameTable<StagedValue>>,
        i: int,
        bytes: Seq<u8>,
    )
        requires
            0 <= i < before.file_records@.len(),
            bytes.len() > 0,
            Self::closes_with(
                before,
                after,
                single,
                double,
                before.first_record_ino() + i,
                hex_dump(bytes) + seq!['\n'],
                sent,
            ),
        ensures
            ({
                let record = before.file_records@[i];
                Self::sends(
                    sent,
                    numbers::decimal(record.file_number as nat) + seq![':'] + numbers::decimal(
                        record.record_number as nat,
                    ),
                    Staged::FileRecord {
                        file_number: record.file_number,
                        record_number: record.record_number,
                        value: bytes,
                    },
                )
            }),
    {
        let at = before.first_record_ino() + i;
        assert(before.data_file_at(INodeNo(at as u64)) == Some(Node::FileRecord(i)));
        let text = hex_dump(bytes) + seq!['\n'];
        assert(text =~= hex_dump(bytes).push('\n'));
        Self::lemma_direct(before, after, single, double, at, text, sent);
        law_record_text_reads_back(bytes);
    }

    /// Removing a file takes what was staged under its name, and nothing else.
    pub proof fn law_removed_file_is_unstaged(
        before: Self,
        after: Self,
        parent: INodeNo,
        name: Seq<char>,
        other: Seq<char>,
    )
        requires
            Self::removes(before, after, parent, Some(name), Ok(())),
            other != name,
        ensures
            !after.transactions.pending@.dom().contains(name),
            !after.transactions.name_to_ino@.dom().contains(name),
            after.transactions.pending@.dom().contains(other)
                == before.transactions.pending@.dom().contains(other),
            after.transactions.pending@[other] == before.transactions.pending@[other],
            after.transactions.name_to_ino@.dom().contains(other)
                == before.transactions.name_to_ino@.dom().contains(other),
            after.transactions.name_to_ino@[other] == before.transactions.name_to_ino@[other],
    {
    }

    /// A request to change the attributes of a file that can be written is answered with
    /// the size it asks for, and without one with the length of what is read of the file.
    pub proof fn law_size_that_is_answered(
        before: Self,
        after: Self,
        caller: Owner,
        ino: INodeNo,
        size: Option<u64>,
        reply: Result<FileAttr, Errno>,
    )
        requires
            before.in_order(),
            Self::changes_attributes(before, after, caller, ino, size, reply),
            before.transaction_at(ino) is Some || before.takes_direct_writes(ino),
            ino != before.transactions_ino,
        ensures
            reply matches Ok(attr) && attr.ino == ino && match size {
                Some(size) => attr.size == size,
                None => before.getattr_reply(caller, ino) matches Ok(own) && attr.size == own.size,
            },
    {
        before.law_inodes_do_not_collide(ino);
    }
}

/// What was written is found where it was written, the bytes around it stay, and a gap
/// before it is zeros.
pub proof fn law_written_bytes_are_found(buffer: Seq<u8>, offset: int, data: Seq<u8>, k: int)
    requires
        0 <= offset,
    ensures
        ({
            let after = overwritten(buffer, offset, data);
            let end = offset + data.len();
            &&& after.len() == (if end > buffer.len() {
                end
            } else {
                buffer.len() as int
            })
            &&& after.subrange(offset, end) == data
            &&& 0 <= k < offset && k < buffer.len() ==> after[k] == buffer[k]
            &&& end <= k < buffer.len() ==> after[k] == buffer[k]
            &&& buffer.len() <= k < offset ==> after[k] == 0
        }),
{
    let after = overwritten(buffer, offset, data);
    assert(after.subrange(offset, offset + data.len()) =~= data);
}

proof fn lemma_no_words(text: Seq<char>)
    requires
        all_spaces(text),
    ensures
        words(text) == Seq::<Seq<char>>::empty(),
{
    let empty = Seq::<char>::empty();
    assert(split_words(empty) == (Seq::<Seq<char>>::empty(), empty));
    lemma_split_spaces(empty, text);
    assert(empty + text =~= text);
    assert(words(text) =~= Seq::<Seq<char>>::empty());
}

proof fn lemma_nothing_left(text: Seq<char>)
    requires
        all_spaces(text),
    ensures
        trimmed(text).len() == 0,
{
    let (front, back) = law_only_white_space_is_trimmed(text);
    if trimmed(text).len() > 0 {
        assert(text[front.len() as int] == trimmed(text)[0]);
        assert(is_space(text[front.len() as int]));
    }
}

} // verus!
