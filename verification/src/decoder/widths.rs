//! How the description of the records agrees with their layout.
use vstd::prelude::*;

use crate::decoder::accounts::{
    OnchainDistEntry, OnchainDormantBucket, OnchainMarket, OnchainPosition, OnchainSubPool,
};
use crate::decoder::schema;

verus! {

/// How many bytes a value of a described type takes.
pub open spec fn width(ty: Seq<char>) -> nat {
    if ty == "Pubkey32"@ {
        32
    } else if ty == "u32"@ {
        4
    } else if ty == "u128"@ {
        16
    } else if ty == "u64"@ {
        8
    } else if ty == "u8"@ {
        1
    } else if ty == "array<u8,7>"@ {
        7
    } else if ty == "bool"@ {
        1
    } else if ty == "i64"@ {
        8
    } else if ty == "array<u8,6>"@ {
        6
    } else if ty == "array<u8,16>"@ {
        16
    } else if ty == "u16"@ {
        2
    } else if ty == "array<u8,2>"@ {
        2
    } else if ty == "array<u8,5>"@ {
        5
    } else {
        0
    }
}

/// The widths of the types that the descriptions name.
proof fn lemma_widths()
    ensures
        width("Pubkey32"@) == 32,
        width("u32"@) == 4,
        width("u128"@) == 16,
        width("u64"@) == 8,
        width("u8"@) == 1,
        width("array<u8,7>"@) == 7,
        width("bool"@) == 1,
        width("i64"@) == 8,
        width("array<u8,6>"@) == 6,
        width("array<u8,16>"@) == 16,
        width("u16"@) == 2,
        width("array<u8,2>"@) == 2,
        width("array<u8,5>"@) == 5,
{
    reveal_strlit("Pubkey32");
    reveal_strlit("u32");
    reveal_strlit("u128");
    reveal_strlit("u64");
    reveal_strlit("u8");
    reveal_strlit("array<u8,7>");
    reveal_strlit("bool");
    reveal_strlit("i64");
    reveal_strlit("array<u8,6>");
    reveal_strlit("array<u8,16>");
    reveal_strlit("u16");
    reveal_strlit("array<u8,2>");
    reveal_strlit("array<u8,5>");
    assert("u32"@.len() != "Pubkey32"@.len());
    assert("u128"@.len() != "Pubkey32"@.len());
    assert("u128"@.len() != "u32"@.len());
    assert("u64"@.len() != "Pubkey32"@.len());
    assert("u64"@[1] != "u32"@[1]);
    assert("u64"@.len() != "u128"@.len());
    assert("u8"@.len() != "Pubkey32"@.len());
    assert("u8"@.len() != "u32"@.len());
    assert("u8"@.len() != "u128"@.len());
    assert("u8"@.len() != "u64"@.len());
    assert("array<u8,7>"@.len() != "Pubkey32"@.len());
    assert("array<u8,7>"@.len() != "u32"@.len());
    assert("array<u8,7>"@.len() != "u128"@.len());
    assert("array<u8,7>"@.len() != "u64"@.len());
    assert("array<u8,7>"@.len() != "u8"@.len());
    assert("bool"@.len() != "Pubkey32"@.len());
    assert("bool"@.len() != "u32"@.len());
    assert("bool"@[0] != "u128"@[0]);
    assert("bool"@.len() != "u64"@.len());
    assert("bool"@.len() != "u8"@.len());
    assert("bool"@.len() != "array<u8,7>"@.len());
    assert("i64"@.len() != "Pubkey32"@.len());
    assert("i64"@[0] != "u32"@[0]);
    assert("i64"@.len() != "u128"@.len());
    assert("i64"@[0] != "u64"@[0]);
    assert("i64"@.len() != "u8"@.len());
    assert("i64"@.len() != "array<u8,7>"@.len());
    assert("i64"@.len() != "bool"@.len());
    assert("array<u8,6>"@.len() != "Pubkey32"@.len());
    assert("array<u8,6>"@.len() != "u32"@.len());
    assert("array<u8,6>"@.len() != "u128"@.len());
    assert("array<u8,6>"@.len() != "u64"@.len());
    assert("array<u8,6>"@.len() != "u8"@.len());
    assert("array<u8,6>"@[9] != "array<u8,7>"@[9]);
    assert("array<u8,6>"@.len() != "bool"@.len());
    assert("array<u8,6>"@.len() != "i64"@.len());
    assert("array<u8,16>"@.len() != "Pubkey32"@.len());
    assert("array<u8,16>"@.len() != "u32"@.len());
    assert("array<u8,16>"@.len() != "u128"@.len());
    assert("array<u8,16>"@.len() != "u64"@.len());
    assert("array<u8,16>"@.len() != "u8"@.len());
    assert("array<u8,16>"@.len() != "array<u8,7>"@.len());
    assert("array<u8,16>"@.len() != "bool"@.len());
    assert("array<u8,16>"@.len() != "i64"@.len());
    assert("array<u8,16>"@.len() != "array<u8,6>"@.len());
    assert("u16"@.len() != "Pubkey32"@.len());
    assert("u16"@[1] != "u32"@[1]);
    assert("u16"@.len() != "u128"@.len());
    assert("u16"@[1] != "u64"@[1]);
    assert("u16"@.len() != "u8"@.len());
    assert("u16"@.len() != "array<u8,7>"@.len());
    assert("u16"@.len() != "bool"@.len());
    assert("u16"@[0] != "i64"@[0]);
    assert("u16"@.len() != "array<u8,6>"@.len());
    assert("u16"@.len() != "array<u8,16>"@.len());
    assert("array<u8,2>"@.len() != "Pubkey32"@.len());
    assert("array<u8,2>"@.len() != "u32"@.len());
    assert("array<u8,2>"@.len() != "u128"@.len());
    assert("array<u8,2>"@.len() != "u64"@.len());
    assert("array<u8,2>"@.len() != "u8"@.len());
    assert("array<u8,2>"@[9] != "array<u8,7>"@[9]);
    assert("array<u8,2>"@.len() != "bool"@.len());
    assert("array<u8,2>"@.len() != "i64"@.len());
    assert("array<u8,2>"@[9] != "array<u8,6>"@[9]);
    assert("array<u8,2>"@.len() != "array<u8,16>"@.len());
    assert("array<u8,2>"@.len() != "u16"@.len());
    assert("array<u8,5>"@.len() != "Pubkey32"@.len());
    assert("array<u8,5>"@.len() != "u32"@.len());
    assert("array<u8,5>"@.len() != "u128"@.len());
    assert("array<u8,5>"@.len() != "u64"@.len());
    assert("array<u8,5>"@.len() != "u8"@.len());
    assert("array<u8,5>"@[9] != "array<u8,7>"@[9]);
    assert("array<u8,5>"@.len() != "bool"@.len());
    assert("array<u8,5>"@.len() != "i64"@.len());
    assert("array<u8,5>"@[9] != "array<u8,6>"@[9]);
    assert("array<u8,5>"@.len() != "array<u8,16>"@.len());
    assert("array<u8,5>"@.len() != "u16"@.len());
    assert("array<u8,5>"@[9] != "array<u8,2>"@[9]);
}

/// The description of `OnchainSubPool` gives each field the type that it has in
/// the layout.
pub proof fn law_sub_pool_fields_have_their_width(record: OnchainSubPool, i: int)
    requires
        0 <= i < schema::sub_pool_rows().len(),
    ensures
        schema::sub_pool_rows().len() == record.fields().len(),
        width(schema::sub_pool_rows()[i].1) == record.fields()[i].len(),
{
    broadcast use crate::wire::lemma_le_bytes_len;

    lemma_widths();
    let rows = schema::sub_pool_rows();
    assert(rows[0].1 == "Pubkey32"@);
    assert(rows[1].1 == "u32"@);
    assert(rows[2].1 == "u128"@);
    assert(rows[3].1 == "u128"@);
    assert(rows[4].1 == "u128"@);
    assert(rows[5].1 == "u128"@);
    assert(rows[6].1 == "u128"@);
    assert(rows[7].1 == "u128"@);
    assert(rows[8].1 == "u128"@);
    assert(rows[9].1 == "u128"@);
    assert(rows[10].1 == "u64"@);
    assert(rows[11].1 == "u64"@);
    assert(rows[12].1 == "u64"@);
    assert(rows[13].1 == "u64"@);
    assert(rows[14].1 == "u128"@);
    assert(rows[15].1 == "u128"@);
    assert(rows[16].1 == "u32"@);
    assert(rows[17].1 == "u32"@);
    assert(rows[18].1 == "u8"@);
    assert(rows[19].1 == "array<u8,7>"@);
}

/// The description of `OnchainDormantBucket` gives each field the type that it has in
/// the layout.
pub proof fn law_bucket_fields_have_their_width(record: OnchainDormantBucket, i: int)
    requires
        0 <= i < schema::dormant_bucket_rows().len(),
    ensures
        schema::dormant_bucket_rows().len() == record.fields().len(),
        width(schema::dormant_bucket_rows()[i].1) == record.fields()[i].len(),
{
    broadcast use crate::wire::lemma_le_bytes_len;

    lemma_widths();
    let rows = schema::dormant_bucket_rows();
    assert(rows[0].1 == "Pubkey32"@);
    assert(rows[1].1 == "bool"@);
    assert(rows[2].1 == "i64"@);
    assert(rows[3].1 == "u64"@);
    assert(rows[4].1 == "u128"@);
    assert(rows[5].1 == "u128"@);
    assert(rows[6].1 == "u128"@);
    assert(rows[7].1 == "u64"@);
    assert(rows[8].1 == "u64"@);
    assert(rows[9].1 == "u8"@);
    assert(rows[10].1 == "array<u8,6>"@);
}

/// The description of `OnchainDistEntry` gives each field the type that it has in
/// the layout.
pub proof fn law_entry_fields_have_their_width(record: OnchainDistEntry, i: int)
    requires
        0 <= i < schema::dist_entry_rows().len(),
    ensures
        schema::dist_entry_rows().len() == record.fields().len(),
        width(schema::dist_entry_rows()[i].1) == record.fields()[i].len(),
{
    broadcast use crate::wire::lemma_le_bytes_len;

    lemma_widths();
    let rows = schema::dist_entry_rows();
    assert(rows[0].1 == "u64"@);
    assert(rows[1].1 == "u64"@);
    assert(rows[2].1 == "u128"@);
    assert(rows[3].1 == "u128"@);
    assert(rows[4].1 == "u128"@);
}

/// The description of `OnchainMarket` gives each field the type that it has in
/// the layout.
pub proof fn law_market_fields_have_their_width(record: OnchainMarket, i: int)
    requires
        0 <= i < schema::market_rows().len(),
    ensures
        schema::market_rows().len() == record.fields().len(),
        width(schema::market_rows()[i].1) == record.fields()[i].len(),
{
    broadcast use crate::wire::lemma_le_bytes_len;

    lemma_widths();
    let rows = schema::market_rows();
    assert(rows[0].1 == "Pubkey32"@);
    assert(rows[1].1 == "array<u8,16>"@);
    assert(rows[2].1 == "Pubkey32"@);
    assert(rows[3].1 == "Pubkey32"@);
    assert(rows[4].1 == "Pubkey32"@);
    assert(rows[5].1 == "Pubkey32"@);
    assert(rows[6].1 == "Pubkey32"@);
    assert(rows[7].1 == "u32"@);
    assert(rows[8].1 == "u64"@);
    assert(rows[9].1 == "u64"@);
    assert(rows[10].1 == "u128"@);
    assert(rows[11].1 == "u128"@);
    assert(rows[12].1 == "u128"@);
    assert(rows[13].1 == "u128"@);
    assert(rows[14].1 == "u16"@);
    assert(rows[15].1 == "i64"@);
    assert(rows[16].1 == "u64"@);
    assert(rows[17].1 == "u16"@);
    assert(rows[18].1 == "u32"@);
    assert(rows[19].1 == "u64"@);
    assert(rows[20].1 == "u32"@);
    assert(rows[21].1 == "u32"@);
    assert(rows[22].1 == "u32"@);
    assert(rows[23].1 == "u64"@);
    assert(rows[24].1 == "bool"@);
    assert(rows[25].1 == "bool"@);
    assert(rows[26].1 == "u16"@);
    assert(rows[27].1 == "u32"@);
    assert(rows[28].1 == "u8"@);
    assert(rows[29].1 == "u32"@);
    assert(rows[30].1 == "u32"@);
    assert(rows[31].1 == "u8"@);
    assert(rows[32].1 == "array<u8,2>"@);
}

/// The description of `OnchainPosition` gives each field the type that it has in
/// the layout.
pub proof fn law_position_fields_have_their_width(record: OnchainPosition, i: int)
    requires
        0 <= i < schema::position_rows().len(),
    ensures
        schema::position_rows().len() == record.fields().len(),
        width(schema::position_rows()[i].1) == record.fields()[i].len(),
{
    broadcast use crate::wire::lemma_le_bytes_len;

    lemma_widths();
    let rows = schema::position_rows();
    assert(rows[0].1 == "Pubkey32"@);
    assert(rows[1].1 == "Pubkey32"@);
    assert(rows[2].1 == "Pubkey32"@);
    assert(rows[3].1 == "u64"@);
    assert(rows[4].1 == "bool"@);
    assert(rows[5].1 == "u8"@);
    assert(rows[6].1 == "u64"@);
    assert(rows[7].1 == "u32"@);
    assert(rows[8].1 == "u128"@);
    assert(rows[9].1 == "u128"@);
    assert(rows[10].1 == "u128"@);
    assert(rows[11].1 == "i64"@);
    assert(rows[12].1 == "bool"@);
    assert(rows[13].1 == "u64"@);
    assert(rows[14].1 == "u64"@);
    assert(rows[15].1 == "u64"@);
    assert(rows[16].1 == "u64"@);
    assert(rows[17].1 == "i64"@);
    assert(rows[18].1 == "i64"@);
    assert(rows[19].1 == "i64"@);
    assert(rows[20].1 == "u16"@);
    assert(rows[21].1 == "u8"@);
    assert(rows[22].1 == "array<u8,5>"@);
}

} // verus!
