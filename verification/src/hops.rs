//! How soon a hop sequence has been everywhere.

use vstd::prelude::*;
use crate::noise::{hop_hash, GOLDEN, MIX_A};

verus! {

/// The hash of a hop index, from the values it goes through.
proof fn hash_goes_through(idx: i64, start: u64, folded: u64, mixed: u64, hash: u64)
    requires
        0 <= idx,
        (idx * GOLDEN) % 0x1_0000_0000_0000_0000 == start,
        start ^ (start >> 29) == folded,
        (folded * MIX_A) % 0x1_0000_0000_0000_0000 == mixed,
        mixed ^ (mixed >> 32) == hash,
    ensures
        hop_hash(idx) == hash,
{
    assert((idx as u64).wrapping_mul(GOLDEN) == start);
    assert(folded.wrapping_mul(MIX_A) == mixed);
}

/// The hashes of some early hops, among which every count of channels up to 32 has all of them.
proof fn early_hashes()
    ensures
        hop_hash(0) == 0x0000_0000_0000_0000u64,
        hop_hash(6) == 0x7BE2_226C_616F_CEDDu64,
        hop_hash(10) == 0xBD63_59B5_318C_6508u64,
        hop_hash(11) == 0xF77A_B350_C035_4A54u64,
        hop_hash(15) == 0x2466_5C33_F3FA_F7BBu64,
        hop_hash(17) == 0xCC8D_735D_088A_C3A3u64,
        hop_hash(22) == 0xC726_8045_4CA2_5784u64,
        hop_hash(35) == 0xD82B_EFF7_ECA5_E4ABu64,
        hop_hash(49) == 0xEA8E_1E0E_EF60_E7D9u64,
        hop_hash(52) == 0xC662_E711_B680_464Bu64,
        hop_hash(74) == 0x89BF_6A40_0AA6_C084u64,
        hop_hash(86) == 0xFBC4_7B42_A2E6_940Au64,
        hop_hash(94) == 0xDB9C_18DD_EECF_F926u64,
        hop_hash(115) == 0x4FCA_C0A4_A413_B17Au64,
        hop_hash(116) == 0xC100_5914_FBBA_DF75u64,
        hop_hash(118) == 0x002C_49A0_BCC2_FE33u64,
        hop_hash(133) == 0x3F28_F6DD_CEBE_E14Du64,
        hop_hash(163) == 0xB2D5_8985_F31E_6F82u64,
        hop_hash(173) == 0xDDFC_1C7F_AF28_811Eu64,
        hop_hash(177) == 0x8444_1961_F6A1_1F84u64,
        hop_hash(193) == 0xC629_B85D_0B16_945Fu64,
        hop_hash(202) == 0xF52A_5D6E_FBB7_9877u64,
        hop_hash(227) == 0x3601_35C8_9DBD_9D31u64,
        hop_hash(233) == 0xA47F_60FE_8ACE_47DDu64,
        hop_hash(237) == 0x018E_B5B6_103B_5019u64,
        hop_hash(278) == 0x46E6_34F9_79C3_75EEu64,
        hop_hash(284) == 0xAB9E_848B_8BE0_5916u64,
        hop_hash(317) == 0x927E_9448_7D8F_5BE5u64,
        hop_hash(336) == 0x05D1_3844_C73B_9CACu64,
        hop_hash(453) == 0x50E5_AA1E_A589_6606u64,
        hop_hash(467) == 0xF33A_8ADF_ABAF_1FF9u64,
        hop_hash(505) == 0x1369_C8EF_EB8A_048Au64,
        hop_hash(510) == 0x4308_80B3_FC90_7A09u64,
        hop_hash(519) == 0x04F8_CB24_5384_0BA7u64,
        hop_hash(538) == 0xDF7C_22C6_9A29_F458u64,
        hop_hash(570) == 0x5A44_EE40_6B92_CD21u64,
        hop_hash(645) == 0x3B27_84F4_CD82_AC10u64,
        hop_hash(714) == 0x2AAF_1285_C87D_30AFu64,
        hop_hash(936) == 0x6352_A2D9_2586_C4F2u64,
        hop_hash(1100) == 0xE469_9EAF_6364_819Cu64,
        hop_hash(1150) == 0x5FA8_7ECA_27B4_BB92u64,
{
    assert({
        &&& 0x0000_0000_0000_0000u64 ^ (0x0000_0000_0000_0000u64 >> 29) == 0x0000_0000_0000_0000u64
        &&& 0xB54C_DA58_FBBE_E87Eu64 ^ (0xB54C_DA58_FBBE_E87Eu64 >> 29) == 0xB54C_DA5D_51D8_3AB9u64
        &&& 0x2E2A_C13E_F8E8_D8D2u64 ^ (0x2E2A_C13E_F8E8_D8D2u64 >> 29) == 0x2E2A_C13F_89BE_D125u64
        &&& 0xCC62_3AF8_7833_54E7u64 ^ (0xCC62_3AF8_7833_54E7u64 >> 29) == 0xCC62_3AFE_1B22_8324u64
        &&& 0x4540_21DE_755D_453Bu64 ^ (0x4540_21DE_755D_453Bu64 >> 29) == 0x4540_21DC_5F5C_4BC8u64
        &&& 0x81AF_1551_73F2_3D65u64 ^ (0x81AF_1551_73F2_3D65u64 >> 29) == 0x81AF_1555_7E8A_97EEu64
        &&& 0x98C4_75F0_F066_A9CEu64 ^ (0x98C4_75F0_F066_A9CEu64 >> 29) == 0x98C4_75F4_3645_0649u64
        &&& 0xA195_A45C_672E_F6DFu64 ^ (0xA195_A45C_672E_F6DFu64 >> 29) == 0xA195_A459_6B83_D43Cu64
        &&& 0x489E_4C81_5D41_C005u64 ^ (0x489E_4C81_5D41_C005u64 >> 29) == 0x489E_4C83_19B3_A40Fu64
        &&& 0x2344_B9AD_DB21_3444u64 ^ (0x2344_B9AD_DB21_3444u64 >> 29) == 0x2344_B9AC_C104_F92Au64
        &&& 0xBC09_2F9E_CB87_DE12u64 ^ (0xBC09_2F9E_CB87_DE12u64 >> 29) == 0xBC09_2F9B_2BCE_A2E4u64
        &&& 0x26A2_E450_C305_AF0Eu64 ^ (0x26A2_E450_C305_AF0Eu64 >> 29) == 0x26A2_E451_F612_8D88u64
        &&& 0x185E_B21C_BD59_8FB6u64 ^ (0x185E_B21C_BD59_8FB6u64 >> 29) == 0x185E_B21C_7FAC_1F53u64
        &&& 0x12EB_AE54_2E75_BD6Fu64 ^ (0x12EB_AE54_2E75_BD6Fu64 >> 29) == 0x12EB_AE54_B928_CFCEu64
        &&& 0xB123_280D_ADC0_3984u64 ^ (0xB123_280D_ADC0_3984u64 >> 29) == 0xB123_2808_24D9_79E9u64
        &&& 0xED92_1B80_AC55_31AEu64 ^ (0xED92_1B80_AC55_31AEu64 >> 29) == 0xED92_1B87_C0C5_EDABu64
        &&& 0x32D2_3D5F_21B2_76E9u64 ^ (0x32D2_3D5F_21B2_76E9u64 >> 29) == 0x32D2_3D5E_B723_9C10u64
        &&& 0xBD52_811C_0C6D_015Fu64 ^ (0xBD52_811C_0C6D_015Fu64 >> 29) == 0xBD52_8119_E6F9_09BFu64
        &&& 0xEB7D_425B_0555_DA31u64 ^ (0xEB7D_425B_0555_DA31u64 >> 29) == 0xEB7D_425C_5EBF_C8E9u64
        &&& 0x645B_2941_027F_CA85u64 ^ (0x645B_2941_027F_CA85u64 >> 29) == 0x645B_2942_20A6_808Du64
        &&& 0x47D2_C4D8_F727_8BD5u64 ^ (0x47D2_C4D8_F727_8BD5u64 >> 29) == 0x47D2_C4DA_C9B1_AD12u64
        &&& 0xD7C6_0C5E_70C5_E892u64 ^ (0xD7C6_0C5E_70C5_E892u64 >> 29) == 0xD7C6_0C58_CEF5_8A61u64
        &&& 0x4B30_EF7B_DF0C_069Fu64 ^ (0x4B30_EF7B_DF0C_069Fu64 >> 29) == 0x4B30_EF79_868B_7D41u64
        &&& 0x007D_C9D4_DACA_EF1Du64 ^ (0x007D_C9D4_DACA_EF1Du64 >> 29) == 0x007D_C9D4_D924_A1BBu64
        &&& 0x795B_B0BA_D7F4_DF71u64 ^ (0x795B_B0BA_D7F4_DF71u64 >> 29) == 0x795B_B0B9_1D29_5AA7u64
        &&& 0xD03E_2F70_3AE2_BECEu64 ^ (0xD03E_2F70_3AE2_BECEu64 >> 29) == 0xD03E_2F76_BB13_C54Fu64
        &&& 0x858B_09C9_36A1_A74Cu64 ^ (0x858B_09C9_36A1_A74Cu64 >> 29) == 0x858B_09CD_1AF9_E905u64
        &&& 0xEAB1_BAB2_9F3B_A601u64 ^ (0xEAB1_BAB2_9F3B_A601u64 >> 29) == 0xEAB1_BAB5_CAB6_7395u64
        &&& 0xA8CF_C377_11C2_DB90u64 ^ (0xA8CF_C377_11C2_DB90u64 >> 29) == 0xA8CF_C372_57BC_C028u64
        &&& 0xF82A_653E_3ECD_9129u64 ^ (0xF82A_653E_3ECD_9129u64 >> 29) == 0xF82A_6539_FF9E_B8D8u64
        &&& 0x9F33_0D63_34E0_5A4Fu64 ^ (0x9F33_0D63_34E0_5A4Fu64 >> 29) == 0x9F33_0D67_CD78_3156u64
        &&& 0x1B6F_1EEC_19EE_C56Du64 ^ (0x1B6F_1EEC_19EE_C56Du64 >> 29) == 0x1B6F_1EEC_C296_320Du64
        &&& 0x3284_7F8B_9663_31D6u64 ^ (0x3284_7F8B_9663_31D6u64 >> 29) == 0x3284_7F8A_0240_CD8Au64
        &&& 0xC277_C711_1001_8E93u64 ^ (0xC277_C711_1001_8E93u64 >> 29) == 0xC277_C717_03BF_B61Bu64
        &&& 0x8095_CFD5_8288_C422u64 ^ (0x8095_CFD5_8288_C422u64 >> 29) == 0x8095_CFD1_8626_BA8Eu64
        &&& 0x4785_0705_6BD8_46C2u64 ^ (0x4785_0705_6BD8_46C2u64 >> 29) == 0x4785_0707_57F0_7EE9u64
        &&& 0xA1C5_B05D_B6AA_A0E9u64 ^ (0xA1C5_B05D_B6AA_A0E9u64 >> 29) == 0xA1C5_B058_B887_2204u64
        &&& 0x46B9_7F5D_05BE_1292u64 ^ (0x46B9_7F5D_05BE_1292u64 >> 29) == 0x46B9_7F5F_3075_E87Au64
        &&& 0x7AD5_0E39_6855_ACC8u64 ^ (0x7AD5_0E39_6855_ACC8u64 >> 29) == 0x7AD5_0E3A_BEFD_DD03u64
        &&& 0xD65F_090E_F40D_2A3Cu64 ^ (0xD65F_090E_F40D_2A3Cu64 >> 29) == 0xD65F_0908_46F5_624Bu64
        &&& 0xBD34_CF49_D099_6656u64 ^ (0xBD34_CF49_D099_6656u64 >> 29) == 0xBD34_CF4C_393F_1C18u64
    }) by (bit_vector);
    assert({
        &&& 0x0000_0000_0000_0000u64 ^ (0x0000_0000_0000_0000u64 >> 32) == 0x0000_0000_0000_0000u64
        &&& 0x7BE2_226C_1A8D_ECB1u64 ^ (0x7BE2_226C_1A8D_ECB1u64 >> 32) == 0x7BE2_226C_616F_CEDDu64
        &&& 0xBD63_59B5_8CEF_3CBDu64 ^ (0xBD63_59B5_8CEF_3CBDu64 >> 32) == 0xBD63_59B5_318C_6508u64
        &&& 0xF77A_B350_374F_F904u64 ^ (0xF77A_B350_374F_F904u64 >> 32) == 0xF77A_B350_C035_4A54u64
        &&& 0x2466_5C33_D79C_AB88u64 ^ (0x2466_5C33_D79C_AB88u64 >> 32) == 0x2466_5C33_F3FA_F7BBu64
        &&& 0xCC8D_735D_C407_B0FEu64 ^ (0xCC8D_735D_C407_B0FEu64 >> 32) == 0xCC8D_735D_088A_C3A3u64
        &&& 0xC726_8045_8B84_D7C1u64 ^ (0xC726_8045_8B84_D7C1u64 >> 32) == 0xC726_8045_4CA2_5784u64
        &&& 0xD82B_EFF7_348E_0B5Cu64 ^ (0xD82B_EFF7_348E_0B5Cu64 >> 32) == 0xD82B_EFF7_ECA5_E4ABu64
        &&& 0xEA8E_1E0E_05EE_F9D7u64 ^ (0xEA8E_1E0E_05EE_F9D7u64 >> 32) == 0xEA8E_1E0E_EF60_E7D9u64
        &&& 0xC662_E711_70E2_A15Au64 ^ (0xC662_E711_70E2_A15Au64 >> 32) == 0xC662_E711_B680_464Bu64
        &&& 0x89BF_6A40_8319_AAC4u64 ^ (0x89BF_6A40_8319_AAC4u64 >> 32) == 0x89BF_6A40_0AA6_C084u64
        &&& 0xFBC4_7B42_5922_EF48u64 ^ (0xFBC4_7B42_5922_EF48u64 >> 32) == 0xFBC4_7B42_A2E6_940Au64
        &&& 0xDB9C_18DD_3553_E1FBu64 ^ (0xDB9C_18DD_3553_E1FBu64 >> 32) == 0xDB9C_18DD_EECF_F926u64
        &&& 0x4FCA_C0A4_EBD9_71DEu64 ^ (0x4FCA_C0A4_EBD9_71DEu64 >> 32) == 0x4FCA_C0A4_A413_B17Au64
        &&& 0xC100_5914_3ABA_8661u64 ^ (0xC100_5914_3ABA_8661u64 >> 32) == 0xC100_5914_FBBA_DF75u64
        &&& 0x002C_49A0_BCEE_B793u64 ^ (0x002C_49A0_BCEE_B793u64 >> 32) == 0x002C_49A0_BCC2_FE33u64
        &&& 0x3F28_F6DD_F196_1790u64 ^ (0x3F28_F6DD_F196_1790u64 >> 32) == 0x3F28_F6DD_CEBE_E14Du64
        &&& 0xB2D5_8985_41CB_E607u64 ^ (0xB2D5_8985_41CB_E607u64 >> 32) == 0xB2D5_8985_F31E_6F82u64
        &&& 0xDDFC_1C7F_72D4_9D61u64 ^ (0xDDFC_1C7F_72D4_9D61u64 >> 32) == 0xDDFC_1C7F_AF28_811Eu64
        &&& 0x8444_1961_72E5_06E5u64 ^ (0x8444_1961_72E5_06E5u64 >> 32) == 0x8444_1961_F6A1_1F84u64
        &&& 0xC629_B85D_CD3F_2C02u64 ^ (0xC629_B85D_CD3F_2C02u64 >> 32) == 0xC629_B85D_0B16_945Fu64
        &&& 0xF52A_5D6E_0E9D_C519u64 ^ (0xF52A_5D6E_0E9D_C519u64 >> 32) == 0xF52A_5D6E_FBB7_9877u64
        &&& 0x3601_35C8_ABBC_A8F9u64 ^ (0x3601_35C8_ABBC_A8F9u64 >> 32) == 0x3601_35C8_9DBD_9D31u64
        &&& 0xA47F_60FE_2EB1_2723u64 ^ (0xA47F_60FE_2EB1_2723u64 >> 32) == 0xA47F_60FE_8ACE_47DDu64
        &&& 0x018E_B5B6_11B5_E5AFu64 ^ (0x018E_B5B6_11B5_E5AFu64 >> 32) == 0x018E_B5B6_103B_5019u64
        &&& 0x46E6_34F9_3F25_4117u64 ^ (0x46E6_34F9_3F25_4117u64 >> 32) == 0x46E6_34F9_79C3_75EEu64
        &&& 0xAB9E_848B_207E_DD9Du64 ^ (0xAB9E_848B_207E_DD9Du64 >> 32) == 0xAB9E_848B_8BE0_5916u64
        &&& 0x927E_9448_EFF1_CFADu64 ^ (0x927E_9448_EFF1_CFADu64 >> 32) == 0x927E_9448_7D8F_5BE5u64
        &&& 0x05D1_3844_C2EA_A4E8u64 ^ (0x05D1_3844_C2EA_A4E8u64 >> 32) == 0x05D1_3844_C73B_9CACu64
        &&& 0x50E5_AA1E_F56C_CC18u64 ^ (0x50E5_AA1E_F56C_CC18u64 >> 32) == 0x50E5_AA1E_A589_6606u64
        &&& 0xF33A_8ADF_5895_9526u64 ^ (0xF33A_8ADF_5895_9526u64 >> 32) == 0xF33A_8ADF_ABAF_1FF9u64
        &&& 0x1369_C8EF_F8E3_CC65u64 ^ (0x1369_C8EF_F8E3_CC65u64 >> 32) == 0x1369_C8EF_EB8A_048Au64
        &&& 0x4308_80B3_BF98_FABAu64 ^ (0x4308_80B3_BF98_FABAu64 >> 32) == 0x4308_80B3_FC90_7A09u64
        &&& 0x04F8_CB24_577C_C083u64 ^ (0x04F8_CB24_577C_C083u64 >> 32) == 0x04F8_CB24_5384_0BA7u64
        &&& 0xDF7C_22C6_4555_D69Eu64 ^ (0xDF7C_22C6_4555_D69Eu64 >> 32) == 0xDF7C_22C6_9A29_F458u64
        &&& 0x5A44_EE40_31D6_2361u64 ^ (0x5A44_EE40_31D6_2361u64 >> 32) == 0x5A44_EE40_6B92_CD21u64
        &&& 0x3B27_84F4_F6A5_28E4u64 ^ (0x3B27_84F4_F6A5_28E4u64 >> 32) == 0x3B27_84F4_CD82_AC10u64
        &&& 0x2AAF_1285_E2D2_222Au64 ^ (0x2AAF_1285_E2D2_222Au64 >> 32) == 0x2AAF_1285_C87D_30AFu64
        &&& 0x6352_A2D9_46D4_662Bu64 ^ (0x6352_A2D9_46D4_662Bu64 >> 32) == 0x6352_A2D9_2586_C4F2u64
        &&& 0xE469_9EAF_870D_1F33u64 ^ (0xE469_9EAF_870D_1F33u64 >> 32) == 0xE469_9EAF_6364_819Cu64
        &&& 0x5FA8_7ECA_781C_C558u64 ^ (0x5FA8_7ECA_781C_C558u64 >> 32) == 0x5FA8_7ECA_27B4_BB92u64
    }) by (bit_vector);
    hash_goes_through(0, 0x0000_0000_0000_0000, 0x0000_0000_0000_0000,
        0x0000_0000_0000_0000, 0x0000_0000_0000_0000);
    hash_goes_through(6, 0xB54C_DA58_FBBE_E87E, 0xB54C_DA5D_51D8_3AB9,
        0x7BE2_226C_1A8D_ECB1, 0x7BE2_226C_616F_CEDD);
    hash_goes_through(10, 0x2E2A_C13E_F8E8_D8D2, 0x2E2A_C13F_89BE_D125,
        0xBD63_59B5_8CEF_3CBD, 0xBD63_59B5_318C_6508);
    hash_goes_through(11, 0xCC62_3AF8_7833_54E7, 0xCC62_3AFE_1B22_8324,
        0xF77A_B350_374F_F904, 0xF77A_B350_C035_4A54);
    hash_goes_through(15, 0x4540_21DE_755D_453B, 0x4540_21DC_5F5C_4BC8,
        0x2466_5C33_D79C_AB88, 0x2466_5C33_F3FA_F7BB);
    hash_goes_through(17, 0x81AF_1551_73F2_3D65, 0x81AF_1555_7E8A_97EE,
        0xCC8D_735D_C407_B0FE, 0xCC8D_735D_088A_C3A3);
    hash_goes_through(22, 0x98C4_75F0_F066_A9CE, 0x98C4_75F4_3645_0649,
        0xC726_8045_8B84_D7C1, 0xC726_8045_4CA2_5784);
    hash_goes_through(35, 0xA195_A45C_672E_F6DF, 0xA195_A459_6B83_D43C,
        0xD82B_EFF7_348E_0B5C, 0xD82B_EFF7_ECA5_E4AB);
    hash_goes_through(49, 0x489E_4C81_5D41_C005, 0x489E_4C83_19B3_A40F,
        0xEA8E_1E0E_05EE_F9D7, 0xEA8E_1E0E_EF60_E7D9);
    hash_goes_through(52, 0x2344_B9AD_DB21_3444, 0x2344_B9AC_C104_F92A,
        0xC662_E711_70E2_A15A, 0xC662_E711_B680_464B);
    hash_goes_through(74, 0xBC09_2F9E_CB87_DE12, 0xBC09_2F9B_2BCE_A2E4,
        0x89BF_6A40_8319_AAC4, 0x89BF_6A40_0AA6_C084);
    hash_goes_through(86, 0x26A2_E450_C305_AF0E, 0x26A2_E451_F612_8D88,
        0xFBC4_7B42_5922_EF48, 0xFBC4_7B42_A2E6_940A);
    hash_goes_through(94, 0x185E_B21C_BD59_8FB6, 0x185E_B21C_7FAC_1F53,
        0xDB9C_18DD_3553_E1FB, 0xDB9C_18DD_EECF_F926);
    hash_goes_through(115, 0x12EB_AE54_2E75_BD6F, 0x12EB_AE54_B928_CFCE,
        0x4FCA_C0A4_EBD9_71DE, 0x4FCA_C0A4_A413_B17A);
    hash_goes_through(116, 0xB123_280D_ADC0_3984, 0xB123_2808_24D9_79E9,
        0xC100_5914_3ABA_8661, 0xC100_5914_FBBA_DF75);
    hash_goes_through(118, 0xED92_1B80_AC55_31AE, 0xED92_1B87_C0C5_EDAB,
        0x002C_49A0_BCEE_B793, 0x002C_49A0_BCC2_FE33);
    hash_goes_through(133, 0x32D2_3D5F_21B2_76E9, 0x32D2_3D5E_B723_9C10,
        0x3F28_F6DD_F196_1790, 0x3F28_F6DD_CEBE_E14D);
    hash_goes_through(163, 0xBD52_811C_0C6D_015F, 0xBD52_8119_E6F9_09BF,
        0xB2D5_8985_41CB_E607, 0xB2D5_8985_F31E_6F82);
    hash_goes_through(173, 0xEB7D_425B_0555_DA31, 0xEB7D_425C_5EBF_C8E9,
        0xDDFC_1C7F_72D4_9D61, 0xDDFC_1C7F_AF28_811E);
    hash_goes_through(177, 0x645B_2941_027F_CA85, 0x645B_2942_20A6_808D,
        0x8444_1961_72E5_06E5, 0x8444_1961_F6A1_1F84);
    hash_goes_through(193, 0x47D2_C4D8_F727_8BD5, 0x47D2_C4DA_C9B1_AD12,
        0xC629_B85D_CD3F_2C02, 0xC629_B85D_0B16_945F);
    hash_goes_through(202, 0xD7C6_0C5E_70C5_E892, 0xD7C6_0C58_CEF5_8A61,
        0xF52A_5D6E_0E9D_C519, 0xF52A_5D6E_FBB7_9877);
    hash_goes_through(227, 0x4B30_EF7B_DF0C_069F, 0x4B30_EF79_868B_7D41,
        0x3601_35C8_ABBC_A8F9, 0x3601_35C8_9DBD_9D31);
    hash_goes_through(233, 0x007D_C9D4_DACA_EF1D, 0x007D_C9D4_D924_A1BB,
        0xA47F_60FE_2EB1_2723, 0xA47F_60FE_8ACE_47DD);
    hash_goes_through(237, 0x795B_B0BA_D7F4_DF71, 0x795B_B0B9_1D29_5AA7,
        0x018E_B5B6_11B5_E5AF, 0x018E_B5B6_103B_5019);
    hash_goes_through(278, 0xD03E_2F70_3AE2_BECE, 0xD03E_2F76_BB13_C54F,
        0x46E6_34F9_3F25_4117, 0x46E6_34F9_79C3_75EE);
    hash_goes_through(284, 0x858B_09C9_36A1_A74C, 0x858B_09CD_1AF9_E905,
        0xAB9E_848B_207E_DD9D, 0xAB9E_848B_8BE0_5916);
    hash_goes_through(317, 0xEAB1_BAB2_9F3B_A601, 0xEAB1_BAB5_CAB6_7395,
        0x927E_9448_EFF1_CFAD, 0x927E_9448_7D8F_5BE5);
    hash_goes_through(336, 0xA8CF_C377_11C2_DB90, 0xA8CF_C372_57BC_C028,
        0x05D1_3844_C2EA_A4E8, 0x05D1_3844_C73B_9CAC);
    hash_goes_through(453, 0xF82A_653E_3ECD_9129, 0xF82A_6539_FF9E_B8D8,
        0x50E5_AA1E_F56C_CC18, 0x50E5_AA1E_A589_6606);
    hash_goes_through(467, 0x9F33_0D63_34E0_5A4F, 0x9F33_0D67_CD78_3156,
        0xF33A_8ADF_5895_9526, 0xF33A_8ADF_ABAF_1FF9);
    hash_goes_through(505, 0x1B6F_1EEC_19EE_C56D, 0x1B6F_1EEC_C296_320D,
        0x1369_C8EF_F8E3_CC65, 0x1369_C8EF_EB8A_048A);
    hash_goes_through(510, 0x3284_7F8B_9663_31D6, 0x3284_7F8A_0240_CD8A,
        0x4308_80B3_BF98_FABA, 0x4308_80B3_FC90_7A09);
    hash_goes_through(519, 0xC277_C711_1001_8E93, 0xC277_C717_03BF_B61B,
        0x04F8_CB24_577C_C083, 0x04F8_CB24_5384_0BA7);
    hash_goes_through(538, 0x8095_CFD5_8288_C422, 0x8095_CFD1_8626_BA8E,
        0xDF7C_22C6_4555_D69E, 0xDF7C_22C6_9A29_F458);
    hash_goes_through(570, 0x4785_0705_6BD8_46C2, 0x4785_0707_57F0_7EE9,
        0x5A44_EE40_31D6_2361, 0x5A44_EE40_6B92_CD21);
    hash_goes_through(645, 0xA1C5_B05D_B6AA_A0E9, 0xA1C5_B058_B887_2204,
        0x3B27_84F4_F6A5_28E4, 0x3B27_84F4_CD82_AC10);
    hash_goes_through(714, 0x46B9_7F5D_05BE_1292, 0x46B9_7F5F_3075_E87A,
        0x2AAF_1285_E2D2_222A, 0x2AAF_1285_C87D_30AF);
    hash_goes_through(936, 0x7AD5_0E39_6855_ACC8, 0x7AD5_0E3A_BEFD_DD03,
        0x6352_A2D9_46D4_662B, 0x6352_A2D9_2586_C4F2);
    hash_goes_through(1100, 0xD65F_090E_F40D_2A3C, 0xD65F_0908_46F5_624B,
        0xE469_9EAF_870D_1F33, 0xE469_9EAF_6364_819C);
    hash_goes_through(1150, 0xBD34_CF49_D099_6656, 0xBD34_CF4C_393F_1C18,
        0x5FA8_7ECA_781C_C558, 0x5FA8_7ECA_27B4_BB92);
}

/// A hop sequence is quick to use its whole grid: with 2 to 32 channels, each is visited among
/// the first sixty hops per channel.
pub proof fn grid_is_covered_early(channel: usize, num_channels: usize)
    requires
        2 <= num_channels <= 32,
        channel < num_channels,
    ensures
        exists|idx: i64|
            0 <= idx < 60 * num_channels && #[trigger] hop_hash(idx) % (num_channels as u64)
                == channel,
{
    early_hashes();
    if num_channels == 2 {
        assert(hop_hash(0) % 2 == 0 && hop_hash(6) % 2 == 1);
    } else if num_channels == 3 {
        assert(hop_hash(0) % 3 == 0 && hop_hash(6) % 3 == 1 && hop_hash(11) % 3 == 2);
    } else if num_channels == 4 {
        assert(hop_hash(0) % 4 == 0 && hop_hash(6) % 4 == 1 && hop_hash(86) % 4 == 2 &&
            hop_hash(15) % 4 == 3);
    } else if num_channels == 5 {
        assert(hop_hash(0) % 5 == 0 && hop_hash(6) % 5 == 1 && hop_hash(17) % 5 == 2 &&
            hop_hash(15) % 5 == 3 && hop_hash(52) % 5 == 4);
    } else if num_channels == 6 {
        assert(hop_hash(0) % 6 == 0 && hop_hash(6) % 6 == 1 && hop_hash(11) % 6 == 2 &&
            hop_hash(35) % 6 == 3 && hop_hash(10) % 6 == 4 && hop_hash(15) % 6 == 5);
    } else if num_channels == 7 {
        assert(hop_hash(0) % 7 == 0 && hop_hash(49) % 7 == 1 && hop_hash(11) % 7 == 2 &&
            hop_hash(94) % 7 == 3 && hop_hash(15) % 7 == 4 && hop_hash(193) % 7 == 5 &&
            hop_hash(6) % 7 == 6);
    } else if num_channels == 8 {
        assert(hop_hash(0) % 8 == 0 && hop_hash(49) % 8 == 1 && hop_hash(86) % 8 == 2 &&
            hop_hash(15) % 8 == 3 && hop_hash(11) % 8 == 4 && hop_hash(6) % 8 == 5 &&
            hop_hash(94) % 8 == 6 && hop_hash(193) % 8 == 7);
    } else if num_channels == 9 {
        assert(hop_hash(0) % 9 == 0 && hop_hash(17) % 9 == 1 && hop_hash(74) % 9 == 2 &&
            hop_hash(35) % 9 == 3 && hop_hash(6) % 9 == 4 && hop_hash(15) % 9 == 5 &&
            hop_hash(22) % 9 == 6 && hop_hash(10) % 9 == 7 && hop_hash(11) % 9 == 8);
    } else if num_channels == 10 {
        assert(hop_hash(0) % 10 == 0 && hop_hash(6) % 10 == 1 && hop_hash(94) % 10 == 2 &&
            hop_hash(15) % 10 == 3 && hop_hash(115) % 10 == 4 && hop_hash(35) % 10 == 5 &&
            hop_hash(10) % 10 == 6 && hop_hash(17) % 10 == 7 && hop_hash(74) % 10 == 8 &&
            hop_hash(52) % 10 == 9);
    } else if num_channels == 11 {
        assert(hop_hash(0) % 11 == 0 && hop_hash(86) % 11 == 1 && hop_hash(11) % 11 == 2 &&
            hop_hash(52) % 11 == 3 && hop_hash(278) % 11 == 4 && hop_hash(173) % 11 == 5 &&
            hop_hash(15) % 11 == 6 && hop_hash(10) % 11 == 7 && hop_hash(22) % 11 == 8 &&
            hop_hash(6) % 11 == 9 && hop_hash(49) % 11 == 10);
    } else if num_channels == 12 {
        assert(hop_hash(0) % 12 == 0 && hop_hash(6) % 12 == 1 && hop_hash(94) % 12 == 2 &&
            hop_hash(35) % 12 == 3 && hop_hash(10) % 12 == 4 && hop_hash(116) % 12 == 5 &&
            hop_hash(115) % 12 == 6 && hop_hash(17) % 12 == 7 && hop_hash(11) % 12 == 8 &&
            hop_hash(49) % 12 == 9 && hop_hash(86) % 12 == 10 && hop_hash(15) % 12 == 11);
    } else if num_channels == 13 {
        assert(hop_hash(0) % 13 == 0 && hop_hash(15) % 13 == 1 && hop_hash(278) % 13 == 2 &&
            hop_hash(35) % 13 == 3 && hop_hash(227) % 13 == 4 && hop_hash(202) % 13 == 5 &&
            hop_hash(52) % 13 == 6 && hop_hash(94) % 13 == 7 && hop_hash(22) % 13 == 8 &&
            hop_hash(49) % 13 == 9 && hop_hash(11) % 13 == 10 && hop_hash(6) % 13 == 11 &&
            hop_hash(10) % 13 == 12);
    } else if num_channels == 14 {
        assert(hop_hash(0) % 14 == 0 && hop_hash(49) % 14 == 1 && hop_hash(11) % 14 == 2 &&
            hop_hash(202) % 14 == 3 && hop_hash(163) % 14 == 4 && hop_hash(193) % 14 == 5 &&
            hop_hash(10) % 14 == 6 && hop_hash(17) % 14 == 7 && hop_hash(86) % 14 == 8 &&
            hop_hash(116) % 14 == 9 && hop_hash(94) % 14 == 10 && hop_hash(15) % 14 == 11 &&
            hop_hash(538) % 14 == 12 && hop_hash(6) % 14 == 13);
    } else if num_channels == 15 {
        assert(hop_hash(0) % 15 == 0 && hop_hash(6) % 15 == 1 && hop_hash(94) % 15 == 2 &&
            hop_hash(49) % 15 == 3 && hop_hash(118) % 15 == 4 && hop_hash(163) % 15 == 5 &&
            hop_hash(22) % 15 == 6 && hop_hash(17) % 15 == 7 && hop_hash(15) % 15 == 8 &&
            hop_hash(52) % 15 == 9 && hop_hash(202) % 15 == 10 && hop_hash(11) % 15 == 11 &&
            hop_hash(173) % 15 == 12 && hop_hash(467) % 15 == 13 && hop_hash(116) % 15 == 14);
    } else if num_channels == 16 {
        assert(hop_hash(0) % 16 == 0 && hop_hash(227) % 16 == 1 && hop_hash(163) % 16 == 2 &&
            hop_hash(17) % 16 == 3 && hop_hash(11) % 16 == 4 && hop_hash(116) % 16 == 5 &&
            hop_hash(94) % 16 == 6 && hop_hash(202) % 16 == 7 && hop_hash(10) % 16 == 8 &&
            hop_hash(49) % 16 == 9 && hop_hash(86) % 16 == 10 && hop_hash(15) % 16 == 11 &&
            hop_hash(336) % 16 == 12 && hop_hash(6) % 16 == 13 && hop_hash(173) % 16 == 14 &&
            hop_hash(193) % 16 == 15);
    } else if num_channels == 17 {
        assert(hop_hash(0) % 17 == 0 && hop_hash(15) % 17 == 1 && hop_hash(163) % 17 == 2 &&
            hop_hash(17) % 17 == 3 && hop_hash(6) % 17 == 4 && hop_hash(202) % 17 == 5 &&
            hop_hash(10) % 17 == 6 && hop_hash(22) % 17 == 7 && hop_hash(116) % 17 == 8 &&
            hop_hash(94) % 17 == 9 && hop_hash(133) % 17 == 10 && hop_hash(11) % 17 == 11 &&
            hop_hash(74) % 17 == 12 && hop_hash(49) % 17 == 13 && hop_hash(115) % 17 == 14 &&
            hop_hash(35) % 17 == 15 && hop_hash(173) % 17 == 16);
    } else if num_channels == 18 {
        assert(hop_hash(0) % 18 == 0 && hop_hash(17) % 18 == 1 && hop_hash(74) % 18 == 2 &&
            hop_hash(35) % 18 == 3 && hop_hash(453) % 18 == 4 && hop_hash(15) % 18 == 5 &&
            hop_hash(22) % 18 == 6 && hop_hash(202) % 18 == 7 && hop_hash(11) % 18 == 8 &&
            hop_hash(317) % 18 == 9 && hop_hash(86) % 18 == 10 && hop_hash(133) % 18 == 11 &&
            hop_hash(278) % 18 == 12 && hop_hash(6) % 18 == 13 && hop_hash(163) % 18 == 14 &&
            hop_hash(193) % 18 == 15 && hop_hash(10) % 18 == 16 && hop_hash(227) % 18 == 17);
    } else if num_channels == 19 {
        assert(hop_hash(0) % 19 == 0 && hop_hash(510) % 19 == 1 && hop_hash(116) % 19 == 2 &&
            hop_hash(52) % 19 == 3 && hop_hash(467) % 19 == 4 && hop_hash(22) % 19 == 5 &&
            hop_hash(49) % 19 == 6 && hop_hash(10) % 19 == 7 && hop_hash(233) % 19 == 8 &&
            hop_hash(177) % 19 == 9 && hop_hash(94) % 19 == 10 && hop_hash(86) % 19 == 11 &&
            hop_hash(6) % 19 == 12 && hop_hash(193) % 19 == 13 && hop_hash(115) % 19 == 14 &&
            hop_hash(11) % 19 == 15 && hop_hash(202) % 19 == 16 && hop_hash(133) % 19 == 17 &&
            hop_hash(237) % 19 == 18);
    } else if num_channels == 20 {
        assert(hop_hash(0) % 20 == 0 && hop_hash(6) % 20 == 1 && hop_hash(94) % 20 == 2 &&
            hop_hash(15) % 20 == 3 && hop_hash(336) % 20 == 4 && hop_hash(227) % 20 == 5 &&
            hop_hash(86) % 20 == 6 && hop_hash(17) % 20 == 7 && hop_hash(74) % 20 == 8 &&
            hop_hash(116) % 20 == 9 && hop_hash(163) % 20 == 10 && hop_hash(714) % 20 == 11 &&
            hop_hash(177) % 20 == 12 && hop_hash(49) % 20 == 13 && hop_hash(115) % 20 == 14 &&
            hop_hash(35) % 20 == 15 && hop_hash(10) % 20 == 16 && hop_hash(233) % 20 == 17 &&
            hop_hash(505) % 20 == 18 && hop_hash(52) % 20 == 19);
    } else if num_channels == 21 {
        assert(hop_hash(0) % 21 == 0 && hop_hash(86) % 21 == 1 && hop_hash(11) % 21 == 2 &&
            hop_hash(510) % 21 == 3 && hop_hash(505) % 21 == 4 && hop_hash(538) % 21 == 5 &&
            hop_hash(22) % 21 == 6 && hop_hash(17) % 21 == 7 && hop_hash(233) % 21 == 8 &&
            hop_hash(173) % 21 == 9 && hop_hash(177) % 21 == 10 && hop_hash(15) % 21 == 11 &&
            hop_hash(193) % 21 == 12 && hop_hash(6) % 21 == 13 && hop_hash(237) % 21 == 14 &&
            hop_hash(49) % 21 == 15 && hop_hash(118) % 21 == 16 && hop_hash(94) % 21 == 17 &&
            hop_hash(35) % 21 == 18 && hop_hash(467) % 21 == 19 && hop_hash(74) % 21 == 20);
    } else if num_channels == 22 {
        assert(hop_hash(0) % 22 == 0 && hop_hash(570) % 22 == 1 && hop_hash(11) % 22 == 2 &&
            hop_hash(52) % 22 == 3 && hop_hash(278) % 22 == 4 && hop_hash(202) % 22 == 5 &&
            hop_hash(645) % 22 == 6 && hop_hash(133) % 22 == 7 && hop_hash(22) % 22 == 8 &&
            hop_hash(6) % 22 == 9 && hop_hash(936) % 22 == 10 && hop_hash(35) % 22 == 11 &&
            hop_hash(86) % 22 == 12 && hop_hash(17) % 22 == 13 && hop_hash(115) % 22 == 14 &&
            hop_hash(519) % 22 == 15 && hop_hash(173) % 22 == 16 && hop_hash(15) % 22 == 17 &&
            hop_hash(10) % 22 == 18 && hop_hash(193) % 22 == 19 && hop_hash(74) % 22 == 20 &&
            hop_hash(49) % 22 == 21);
    } else if num_channels == 23 {
        assert(hop_hash(0) % 23 == 0 && hop_hash(86) % 23 == 1 && hop_hash(49) % 23 == 2 &&
            hop_hash(15) % 23 == 3 && hop_hash(519) % 23 == 4 && hop_hash(193) % 23 == 5 &&
            hop_hash(6) % 23 == 6 && hop_hash(118) % 23 == 7 && hop_hash(278) % 23 == 8 &&
            hop_hash(936) % 23 == 9 && hop_hash(35) % 23 == 10 && hop_hash(336) % 23 == 11 &&
            hop_hash(133) % 23 == 12 && hop_hash(74) % 23 == 13 && hop_hash(163) % 23 == 14 &&
            hop_hash(538) % 23 == 15 && hop_hash(11) % 23 == 16 && hop_hash(202) % 23 == 17 &&
            hop_hash(22) % 23 == 18 && hop_hash(115) % 23 == 19 && hop_hash(10) % 23 == 20 &&
            hop_hash(467) % 23 == 21 && hop_hash(52) % 23 == 22);
    } else if num_channels == 24 {
        assert(hop_hash(0) % 24 == 0 && hop_hash(467) % 24 == 1 && hop_hash(163) % 24 == 2 &&
            hop_hash(35) % 24 == 3 && hop_hash(177) % 24 == 4 && hop_hash(116) % 24 == 5 &&
            hop_hash(173) % 24 == 6 && hop_hash(202) % 24 == 7 && hop_hash(538) % 24 == 8 &&
            hop_hash(49) % 24 == 9 && hop_hash(86) % 24 == 10 && hop_hash(15) % 24 == 11 &&
            hop_hash(22) % 24 == 12 && hop_hash(6) % 24 == 13 && hop_hash(94) % 24 == 14 &&
            hop_hash(193) % 24 == 15 && hop_hash(10) % 24 == 16 && hop_hash(227) % 24 == 17 &&
            hop_hash(115) % 24 == 18 && hop_hash(17) % 24 == 19 && hop_hash(11) % 24 == 20 &&
            hop_hash(317) % 24 == 21 && hop_hash(453) % 24 == 22 && hop_hash(519) % 24 == 23);
    } else if num_channels == 25 {
        assert(hop_hash(0) % 25 == 0 && hop_hash(10) % 25 == 1 && hop_hash(94) % 25 == 2 &&
            hop_hash(15) % 25 == 3 && hop_hash(510) % 25 == 4 && hop_hash(163) % 25 == 5 &&
            hop_hash(538) % 25 == 6 && hop_hash(173) % 25 == 7 && hop_hash(49) % 25 == 8 &&
            hop_hash(115) % 25 == 9 && hop_hash(202) % 25 == 10 && hop_hash(570) % 25 == 11 &&
            hop_hash(17) % 25 == 12 && hop_hash(467) % 25 == 13 && hop_hash(118) % 25 == 14 &&
            hop_hash(35) % 25 == 15 && hop_hash(6) % 25 == 16 && hop_hash(233) % 25 == 17 &&
            hop_hash(1150) % 25 == 18 && hop_hash(52) % 25 == 19 && hop_hash(317) % 25 == 20 &&
            hop_hash(22) % 25 == 21 && hop_hash(177) % 25 == 22 && hop_hash(74) % 25 == 23 &&
            hop_hash(116) % 25 == 24);
    } else if num_channels == 26 {
        assert(hop_hash(0) % 26 == 0 && hop_hash(15) % 26 == 1 && hop_hash(278) % 26 == 2 &&
            hop_hash(35) % 26 == 3 && hop_hash(645) % 26 == 4 && hop_hash(202) % 26 == 5 &&
            hop_hash(74) % 26 == 6 && hop_hash(237) % 26 == 7 && hop_hash(22) % 26 == 8 &&
            hop_hash(49) % 26 == 9 && hop_hash(11) % 26 == 10 && hop_hash(6) % 26 == 11 &&
            hop_hash(10) % 26 == 12 && hop_hash(17) % 26 == 13 && hop_hash(173) % 26 == 14 &&
            hop_hash(570) % 26 == 15 && hop_hash(177) % 26 == 16 && hop_hash(227) % 26 == 17 &&
            hop_hash(453) % 26 == 18 && hop_hash(52) % 26 == 19 && hop_hash(94) % 26 == 20 &&
            hop_hash(116) % 26 == 21 && hop_hash(86) % 26 == 22 && hop_hash(193) % 26 == 23 &&
            hop_hash(538) % 26 == 24 && hop_hash(519) % 26 == 25);
    } else if num_channels == 27 {
        assert(hop_hash(0) % 27 == 0 && hop_hash(17) % 27 == 1 && hop_hash(133) % 27 == 2 &&
            hop_hash(52) % 27 == 3 && hop_hash(453) % 27 == 4 && hop_hash(519) % 27 == 5 &&
            hop_hash(22) % 27 == 6 && hop_hash(10) % 27 == 7 && hop_hash(11) % 27 == 8 &&
            hop_hash(317) % 27 == 9 && hop_hash(1100) % 27 == 10 && hop_hash(233) % 27 == 11 &&
            hop_hash(35) % 27 == 12 && hop_hash(6) % 27 == 13 && hop_hash(116) % 27 == 14 &&
            hop_hash(173) % 27 == 15 && hop_hash(202) % 27 == 16 && hop_hash(94) % 27 == 17 &&
            hop_hash(115) % 27 == 18 && hop_hash(118) % 27 == 19 && hop_hash(74) % 27 == 20 &&
            hop_hash(570) % 27 == 21 && hop_hash(505) % 27 == 22 && hop_hash(15) % 27 == 23 &&
            hop_hash(336) % 27 == 24 && hop_hash(177) % 27 == 25 && hop_hash(936) % 27 == 26);
    } else if num_channels == 28 {
        assert(hop_hash(0) % 28 == 0 && hop_hash(49) % 28 == 1 && hop_hash(173) % 28 == 2 &&
            hop_hash(202) % 28 == 3 && hop_hash(336) % 28 == 4 && hop_hash(467) % 28 == 5 &&
            hop_hash(278) % 28 == 6 && hop_hash(17) % 28 == 7 && hop_hash(1100) % 28 == 8 &&
            hop_hash(116) % 28 == 9 && hop_hash(94) % 28 == 10 && hop_hash(15) % 28 == 11 &&
            hop_hash(538) % 28 == 12 && hop_hash(6) % 28 == 13 && hop_hash(115) % 28 == 14 &&
            hop_hash(52) % 28 == 15 && hop_hash(11) % 28 == 16 && hop_hash(510) % 28 == 17 &&
            hop_hash(163) % 28 == 18 && hop_hash(193) % 28 == 19 && hop_hash(10) % 28 == 20 &&
            hop_hash(237) % 28 == 21 && hop_hash(86) % 28 == 22 && hop_hash(118) % 28 == 23 &&
            hop_hash(177) % 28 == 24 && hop_hash(133) % 28 == 25 && hop_hash(936) % 28 == 26 &&
            hop_hash(714) % 28 == 27);
    } else if num_channels == 29 {
        assert(hop_hash(0) % 29 == 0 && hop_hash(86) % 29 == 1 && hop_hash(52) % 29 == 2 &&
            hop_hash(35) % 29 == 3 && hop_hash(284) % 29 == 4 && hop_hash(505) % 29 == 5 &&
            hop_hash(116) % 29 == 6 && hop_hash(570) % 29 == 7 && hop_hash(173) % 29 == 8 &&
            hop_hash(163) % 29 == 9 && hop_hash(278) % 29 == 10 && hop_hash(193) % 29 == 11 &&
            hop_hash(17) % 29 == 12 && hop_hash(15) % 29 == 13 && hop_hash(453) % 29 == 14 &&
            hop_hash(510) % 29 == 15 && hop_hash(74) % 29 == 16 && hop_hash(22) % 29 == 17 &&
            hop_hash(227) % 29 == 18 && hop_hash(118) % 29 == 19 && hop_hash(177) % 29 == 20 &&
            hop_hash(10) % 29 == 21 && hop_hash(467) % 29 == 22 && hop_hash(645) % 29 == 23 &&
            hop_hash(233) % 29 == 24 && hop_hash(11) % 29 == 25 && hop_hash(49) % 29 == 26 &&
            hop_hash(115) % 29 == 27 && hop_hash(6) % 29 == 28);
    } else if num_channels == 30 {
        assert(hop_hash(0) % 30 == 0 && hop_hash(6) % 30 == 1 && hop_hash(94) % 30 == 2 &&
            hop_hash(49) % 30 == 3 && hop_hash(453) % 30 == 4 && hop_hash(227) % 30 == 5 &&
            hop_hash(22) % 30 == 6 && hop_hash(17) % 30 == 7 && hop_hash(74) % 30 == 8 &&
            hop_hash(52) % 30 == 9 && hop_hash(1100) % 30 == 10 && hop_hash(237) % 30 == 11 &&
            hop_hash(173) % 30 == 12 && hop_hash(467) % 30 == 13 && hop_hash(936) % 30 == 14 &&
            hop_hash(35) % 30 == 15 && hop_hash(10) % 30 == 16 && hop_hash(233) % 30 == 17 &&
            hop_hash(1150) % 30 == 18 && hop_hash(118) % 30 == 19 && hop_hash(163) % 30 == 20 &&
            hop_hash(570) % 30 == 21 && hop_hash(177) % 30 == 22 && hop_hash(15) % 30 == 23 &&
            hop_hash(115) % 30 == 24 && hop_hash(202) % 30 == 25 && hop_hash(11) % 30 == 26 &&
            hop_hash(193) % 30 == 27 && hop_hash(505) % 30 == 28 && hop_hash(116) % 30 == 29);
    } else if num_channels == 31 {
        assert(hop_hash(0) % 31 == 0 && hop_hash(519) % 31 == 1 && hop_hash(22) % 31 == 2 &&
            hop_hash(118) % 31 == 3 && hop_hash(453) % 31 == 4 && hop_hash(336) % 31 == 5 &&
            hop_hash(233) % 31 == 6 && hop_hash(86) % 31 == 7 && hop_hash(202) % 31 == 8 &&
            hop_hash(505) % 31 == 9 && hop_hash(1150) % 31 == 10 && hop_hash(94) % 31 == 11 &&
            hop_hash(52) % 31 == 12 && hop_hash(35) % 31 == 13 && hop_hash(467) % 31 == 14 &&
            hop_hash(74) % 31 == 15 && hop_hash(15) % 31 == 16 && hop_hash(237) % 31 == 17 &&
            hop_hash(227) % 31 == 18 && hop_hash(10) % 31 == 19 && hop_hash(193) % 31 == 20 &&
            hop_hash(49) % 31 == 21 && hop_hash(645) % 31 == 22 && hop_hash(173) % 31 == 23 &&
            hop_hash(116) % 31 == 24 && hop_hash(6) % 31 == 25 && hop_hash(11) % 31 == 26 &&
            hop_hash(17) % 31 == 27 && hop_hash(570) % 31 == 28 && hop_hash(714) % 31 == 29 &&
            hop_hash(133) % 31 == 30);
    } else if num_channels == 32 {
        assert(hop_hash(0) % 32 == 0 && hop_hash(570) % 32 == 1 && hop_hash(163) % 32 == 2 &&
            hop_hash(17) % 32 == 3 && hop_hash(22) % 32 == 4 && hop_hash(317) % 32 == 5 &&
            hop_hash(94) % 32 == 6 && hop_hash(519) % 32 == 7 && hop_hash(10) % 32 == 8 &&
            hop_hash(510) % 32 == 9 && hop_hash(86) % 32 == 10 && hop_hash(35) % 32 == 11 &&
            hop_hash(336) % 32 == 12 && hop_hash(133) % 32 == 13 && hop_hash(278) % 32 == 14 &&
            hop_hash(714) % 32 == 15 && hop_hash(645) % 32 == 16 && hop_hash(227) % 32 == 17 &&
            hop_hash(936) % 32 == 18 && hop_hash(118) % 32 == 19 && hop_hash(11) % 32 == 20 &&
            hop_hash(116) % 32 == 21 && hop_hash(284) % 32 == 22 && hop_hash(202) % 32 == 23 &&
            hop_hash(538) % 32 == 24 && hop_hash(49) % 32 == 25 && hop_hash(115) % 32 == 26 &&
            hop_hash(15) % 32 == 27 && hop_hash(1100) % 32 == 28 && hop_hash(6) % 32 == 29 &&
            hop_hash(173) % 32 == 30 && hop_hash(193) % 32 == 31);
    }
}

} // verus!
