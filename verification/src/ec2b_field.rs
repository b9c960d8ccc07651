//! The arithmetic behind the tables of the inverse cipher: each of its steps can be undone.
use crate::ec2b;
use crate::ec2b_tables::{G11, G13, G14, G9, SBOX, SBOX_INV, SHIFT_ROWS, SHIFT_ROWS_INV};
use vstd::prelude::*;

verus! {

/// Twice a byte in the cipher's field.
pub open spec fn twice(x: u8) -> u8 {
    if x >= 0x80 {
        (x << 1u8) ^ 0x1B
    } else {
        x << 1u8
    }
}

/// Nine times a byte.
pub open spec fn times9(x: u8) -> u8 {
    twice(twice(twice(x))) ^ x
}

/// Eleven times a byte.
pub open spec fn times11(x: u8) -> u8 {
    twice(twice(twice(x))) ^ twice(x) ^ x
}

/// Thirteen times a byte.
pub open spec fn times13(x: u8) -> u8 {
    twice(twice(twice(x))) ^ twice(twice(x)) ^ x
}

/// Fourteen times a byte.
pub open spec fn times14(x: u8) -> u8 {
    twice(twice(twice(x))) ^ twice(twice(x)) ^ twice(x)
}

/// One byte of a mixed column.
pub open spec fn mixed_byte(a: u8, b: u8, c: u8, d: u8) -> u8 {
    twice(a) ^ (twice(b) ^ b) ^ c ^ d
}

/// One byte of an unmixed column, as a sum of multiples.
spec fn sum_of_multiples(a: u8, b: u8, c: u8, d: u8) -> u8 {
    times14(a) ^ times9(d) ^ times13(c) ^ times11(b)
}

/// The table of the multiples of 9 holds them.
pub proof fn law_g9(x: u8)
    ensures
        G9@[x as int] == times9(x),
{
    assert(
        times9(0x00) == 0x00 && times9(0x01) == 0x09 && times9(0x02) == 0x12 && times9(0x03) == 0x1B
        && times9(0x04) == 0x24 && times9(0x05) == 0x2D && times9(0x06) == 0x36 && times9(0x07) == 0x3F
        && times9(0x08) == 0x48 && times9(0x09) == 0x41 && times9(0x0A) == 0x5A && times9(0x0B) == 0x53
        && times9(0x0C) == 0x6C && times9(0x0D) == 0x65 && times9(0x0E) == 0x7E && times9(0x0F) == 0x77
        && times9(0x10) == 0x90 && times9(0x11) == 0x99 && times9(0x12) == 0x82 && times9(0x13) == 0x8B
        && times9(0x14) == 0xB4 && times9(0x15) == 0xBD && times9(0x16) == 0xA6 && times9(0x17) == 0xAF
        && times9(0x18) == 0xD8 && times9(0x19) == 0xD1 && times9(0x1A) == 0xCA && times9(0x1B) == 0xC3
        && times9(0x1C) == 0xFC && times9(0x1D) == 0xF5 && times9(0x1E) == 0xEE && times9(0x1F) == 0xE7
        && times9(0x20) == 0x3B && times9(0x21) == 0x32 && times9(0x22) == 0x29 && times9(0x23) == 0x20
        && times9(0x24) == 0x1F && times9(0x25) == 0x16 && times9(0x26) == 0x0D && times9(0x27) == 0x04
        && times9(0x28) == 0x73 && times9(0x29) == 0x7A && times9(0x2A) == 0x61 && times9(0x2B) == 0x68
        && times9(0x2C) == 0x57 && times9(0x2D) == 0x5E && times9(0x2E) == 0x45 && times9(0x2F) == 0x4C
        && times9(0x30) == 0xAB && times9(0x31) == 0xA2 && times9(0x32) == 0xB9 && times9(0x33) == 0xB0
        && times9(0x34) == 0x8F && times9(0x35) == 0x86 && times9(0x36) == 0x9D && times9(0x37) == 0x94
        && times9(0x38) == 0xE3 && times9(0x39) == 0xEA && times9(0x3A) == 0xF1 && times9(0x3B) == 0xF8
        && times9(0x3C) == 0xC7 && times9(0x3D) == 0xCE && times9(0x3E) == 0xD5 && times9(0x3F) == 0xDC
        && times9(0x40) == 0x76 && times9(0x41) == 0x7F && times9(0x42) == 0x64 && times9(0x43) == 0x6D
        && times9(0x44) == 0x52 && times9(0x45) == 0x5B && times9(0x46) == 0x40 && times9(0x47) == 0x49
        && times9(0x48) == 0x3E && times9(0x49) == 0x37 && times9(0x4A) == 0x2C && times9(0x4B) == 0x25
        && times9(0x4C) == 0x1A && times9(0x4D) == 0x13 && times9(0x4E) == 0x08 && times9(0x4F) == 0x01
        && times9(0x50) == 0xE6 && times9(0x51) == 0xEF && times9(0x52) == 0xF4 && times9(0x53) == 0xFD
        && times9(0x54) == 0xC2 && times9(0x55) == 0xCB && times9(0x56) == 0xD0 && times9(0x57) == 0xD9
        && times9(0x58) == 0xAE && times9(0x59) == 0xA7 && times9(0x5A) == 0xBC && times9(0x5B) == 0xB5
        && times9(0x5C) == 0x8A && times9(0x5D) == 0x83 && times9(0x5E) == 0x98 && times9(0x5F) == 0x91
        && times9(0x60) == 0x4D && times9(0x61) == 0x44 && times9(0x62) == 0x5F && times9(0x63) == 0x56
        && times9(0x64) == 0x69 && times9(0x65) == 0x60 && times9(0x66) == 0x7B && times9(0x67) == 0x72
        && times9(0x68) == 0x05 && times9(0x69) == 0x0C && times9(0x6A) == 0x17 && times9(0x6B) == 0x1E
        && times9(0x6C) == 0x21 && times9(0x6D) == 0x28 && times9(0x6E) == 0x33 && times9(0x6F) == 0x3A
        && times9(0x70) == 0xDD && times9(0x71) == 0xD4 && times9(0x72) == 0xCF && times9(0x73) == 0xC6
        && times9(0x74) == 0xF9 && times9(0x75) == 0xF0 && times9(0x76) == 0xEB && times9(0x77) == 0xE2
        && times9(0x78) == 0x95 && times9(0x79) == 0x9C && times9(0x7A) == 0x87 && times9(0x7B) == 0x8E
        && times9(0x7C) == 0xB1 && times9(0x7D) == 0xB8 && times9(0x7E) == 0xA3 && times9(0x7F) == 0xAA
        && times9(0x80) == 0xEC && times9(0x81) == 0xE5 && times9(0x82) == 0xFE && times9(0x83) == 0xF7
        && times9(0x84) == 0xC8 && times9(0x85) == 0xC1 && times9(0x86) == 0xDA && times9(0x87) == 0xD3
        && times9(0x88) == 0xA4 && times9(0x89) == 0xAD && times9(0x8A) == 0xB6 && times9(0x8B) == 0xBF
        && times9(0x8C) == 0x80 && times9(0x8D) == 0x89 && times9(0x8E) == 0x92 && times9(0x8F) == 0x9B
        && times9(0x90) == 0x7C && times9(0x91) == 0x75 && times9(0x92) == 0x6E && times9(0x93) == 0x67
        && times9(0x94) == 0x58 && times9(0x95) == 0x51 && times9(0x96) == 0x4A && times9(0x97) == 0x43
        && times9(0x98) == 0x34 && times9(0x99) == 0x3D && times9(0x9A) == 0x26 && times9(0x9B) == 0x2F
        && times9(0x9C) == 0x10 && times9(0x9D) == 0x19 && times9(0x9E) == 0x02 && times9(0x9F) == 0x0B
        && times9(0xA0) == 0xD7 && times9(0xA1) == 0xDE && times9(0xA2) == 0xC5 && times9(0xA3) == 0xCC
        && times9(0xA4) == 0xF3 && times9(0xA5) == 0xFA && times9(0xA6) == 0xE1 && times9(0xA7) == 0xE8
        && times9(0xA8) == 0x9F && times9(0xA9) == 0x96 && times9(0xAA) == 0x8D && times9(0xAB) == 0x84
        && times9(0xAC) == 0xBB && times9(0xAD) == 0xB2 && times9(0xAE) == 0xA9 && times9(0xAF) == 0xA0
        && times9(0xB0) == 0x47 && times9(0xB1) == 0x4E && times9(0xB2) == 0x55 && times9(0xB3) == 0x5C
        && times9(0xB4) == 0x63 && times9(0xB5) == 0x6A && times9(0xB6) == 0x71 && times9(0xB7) == 0x78
        && times9(0xB8) == 0x0F && times9(0xB9) == 0x06 && times9(0xBA) == 0x1D && times9(0xBB) == 0x14
        && times9(0xBC) == 0x2B && times9(0xBD) == 0x22 && times9(0xBE) == 0x39 && times9(0xBF) == 0x30
        && times9(0xC0) == 0x9A && times9(0xC1) == 0x93 && times9(0xC2) == 0x88 && times9(0xC3) == 0x81
        && times9(0xC4) == 0xBE && times9(0xC5) == 0xB7 && times9(0xC6) == 0xAC && times9(0xC7) == 0xA5
        && times9(0xC8) == 0xD2 && times9(0xC9) == 0xDB && times9(0xCA) == 0xC0 && times9(0xCB) == 0xC9
        && times9(0xCC) == 0xF6 && times9(0xCD) == 0xFF && times9(0xCE) == 0xE4 && times9(0xCF) == 0xED
        && times9(0xD0) == 0x0A && times9(0xD1) == 0x03 && times9(0xD2) == 0x18 && times9(0xD3) == 0x11
        && times9(0xD4) == 0x2E && times9(0xD5) == 0x27 && times9(0xD6) == 0x3C && times9(0xD7) == 0x35
        && times9(0xD8) == 0x42 && times9(0xD9) == 0x4B && times9(0xDA) == 0x50 && times9(0xDB) == 0x59
        && times9(0xDC) == 0x66 && times9(0xDD) == 0x6F && times9(0xDE) == 0x74 && times9(0xDF) == 0x7D
        && times9(0xE0) == 0xA1 && times9(0xE1) == 0xA8 && times9(0xE2) == 0xB3 && times9(0xE3) == 0xBA
        && times9(0xE4) == 0x85 && times9(0xE5) == 0x8C && times9(0xE6) == 0x97 && times9(0xE7) == 0x9E
        && times9(0xE8) == 0xE9 && times9(0xE9) == 0xE0 && times9(0xEA) == 0xFB && times9(0xEB) == 0xF2
        && times9(0xEC) == 0xCD && times9(0xED) == 0xC4 && times9(0xEE) == 0xDF && times9(0xEF) == 0xD6
        && times9(0xF0) == 0x31 && times9(0xF1) == 0x38 && times9(0xF2) == 0x23 && times9(0xF3) == 0x2A
        && times9(0xF4) == 0x15 && times9(0xF5) == 0x1C && times9(0xF6) == 0x07 && times9(0xF7) == 0x0E
        && times9(0xF8) == 0x79 && times9(0xF9) == 0x70 && times9(0xFA) == 0x6B && times9(0xFB) == 0x62
        && times9(0xFC) == 0x5D && times9(0xFD) == 0x54 && times9(0xFE) == 0x4F && times9(0xFF) == 0x46
    ) by (bit_vector);
}

/// The table of the multiples of 11 holds them.
pub proof fn law_g11(x: u8)
    ensures
        G11@[x as int] == times11(x),
{
    assert(
        times11(0x00) == 0x00 && times11(0x01) == 0x0B && times11(0x02) == 0x16 && times11(0x03) == 0x1D
        && times11(0x04) == 0x2C && times11(0x05) == 0x27 && times11(0x06) == 0x3A && times11(0x07) == 0x31
        && times11(0x08) == 0x58 && times11(0x09) == 0x53 && times11(0x0A) == 0x4E && times11(0x0B) == 0x45
        && times11(0x0C) == 0x74 && times11(0x0D) == 0x7F && times11(0x0E) == 0x62 && times11(0x0F) == 0x69
        && times11(0x10) == 0xB0 && times11(0x11) == 0xBB && times11(0x12) == 0xA6 && times11(0x13) == 0xAD
        && times11(0x14) == 0x9C && times11(0x15) == 0x97 && times11(0x16) == 0x8A && times11(0x17) == 0x81
        && times11(0x18) == 0xE8 && times11(0x19) == 0xE3 && times11(0x1A) == 0xFE && times11(0x1B) == 0xF5
        && times11(0x1C) == 0xC4 && times11(0x1D) == 0xCF && times11(0x1E) == 0xD2 && times11(0x1F) == 0xD9
        && times11(0x20) == 0x7B && times11(0x21) == 0x70 && times11(0x22) == 0x6D && times11(0x23) == 0x66
        && times11(0x24) == 0x57 && times11(0x25) == 0x5C && times11(0x26) == 0x41 && times11(0x27) == 0x4A
        && times11(0x28) == 0x23 && times11(0x29) == 0x28 && times11(0x2A) == 0x35 && times11(0x2B) == 0x3E
        && times11(0x2C) == 0x0F && times11(0x2D) == 0x04 && times11(0x2E) == 0x19 && times11(0x2F) == 0x12
        && times11(0x30) == 0xCB && times11(0x31) == 0xC0 && times11(0x32) == 0xDD && times11(0x33) == 0xD6
        && times11(0x34) == 0xE7 && times11(0x35) == 0xEC && times11(0x36) == 0xF1 && times11(0x37) == 0xFA
        && times11(0x38) == 0x93 && times11(0x39) == 0x98 && times11(0x3A) == 0x85 && times11(0x3B) == 0x8E
        && times11(0x3C) == 0xBF && times11(0x3D) == 0xB4 && times11(0x3E) == 0xA9 && times11(0x3F) == 0xA2
        && times11(0x40) == 0xF6 && times11(0x41) == 0xFD && times11(0x42) == 0xE0 && times11(0x43) == 0xEB
        && times11(0x44) == 0xDA && times11(0x45) == 0xD1 && times11(0x46) == 0xCC && times11(0x47) == 0xC7
        && times11(0x48) == 0xAE && times11(0x49) == 0xA5 && times11(0x4A) == 0xB8 && times11(0x4B) == 0xB3
        && times11(0x4C) == 0x82 && times11(0x4D) == 0x89 && times11(0x4E) == 0x94 && times11(0x4F) == 0x9F
        && times11(0x50) == 0x46 && times11(0x51) == 0x4D && times11(0x52) == 0x50 && times11(0x53) == 0x5B
        && times11(0x54) == 0x6A && times11(0x55) == 0x61 && times11(0x56) == 0x7C && times11(0x57) == 0x77
        && times11(0x58) == 0x1E && times11(0x59) == 0x15 && times11(0x5A) == 0x08 && times11(0x5B) == 0x03
        && times11(0x5C) == 0x32 && times11(0x5D) == 0x39 && times11(0x5E) == 0x24 && times11(0x5F) == 0x2F
        && times11(0x60) == 0x8D && times11(0x61) == 0x86 && times11(0x62) == 0x9B && times11(0x63) == 0x90
        && times11(0x64) == 0xA1 && times11(0x65) == 0xAA && times11(0x66) == 0xB7 && times11(0x67) == 0xBC
        && times11(0x68) == 0xD5 && times11(0x69) == 0xDE && times11(0x6A) == 0xC3 && times11(0x6B) == 0xC8
        && times11(0x6C) == 0xF9 && times11(0x6D) == 0xF2 && times11(0x6E) == 0xEF && times11(0x6F) == 0xE4
        && times11(0x70) == 0x3D && times11(0x71) == 0x36 && times11(0x72) == 0x2B && times11(0x73) == 0x20
        && times11(0x74) == 0x11 && times11(0x75) == 0x1A && times11(0x76) == 0x07 && times11(0x77) == 0x0C
        && times11(0x78) == 0x65 && times11(0x79) == 0x6E && times11(0x7A) == 0x73 && times11(0x7B) == 0x78
        && times11(0x7C) == 0x49 && times11(0x7D) == 0x42 && times11(0x7E) == 0x5F && times11(0x7F) == 0x54
        && times11(0x80) == 0xF7 && times11(0x81) == 0xFC && times11(0x82) == 0xE1 && times11(0x83) == 0xEA
        && times11(0x84) == 0xDB && times11(0x85) == 0xD0 && times11(0x86) == 0xCD && times11(0x87) == 0xC6
        && times11(0x88) == 0xAF && times11(0x89) == 0xA4 && times11(0x8A) == 0xB9 && times11(0x8B) == 0xB2
        && times11(0x8C) == 0x83 && times11(0x8D) == 0x88 && times11(0x8E) == 0x95 && times11(0x8F) == 0x9E
        && times11(0x90) == 0x47 && times11(0x91) == 0x4C && times11(0x92) == 0x51 && times11(0x93) == 0x5A
        && times11(0x94) == 0x6B && times11(0x95) == 0x60 && times11(0x96) == 0x7D && times11(0x97) == 0x76
        && times11(0x98) == 0x1F && times11(0x99) == 0x14 && times11(0x9A) == 0x09 && times11(0x9B) == 0x02
        && times11(0x9C) == 0x33 && times11(0x9D) == 0x38 && times11(0x9E) == 0x25 && times11(0x9F) == 0x2E
        && times11(0xA0) == 0x8C && times11(0xA1) == 0x87 && times11(0xA2) == 0x9A && times11(0xA3) == 0x91
        && times11(0xA4) == 0xA0 && times11(0xA5) == 0xAB && times11(0xA6) == 0xB6 && times11(0xA7) == 0xBD
        && times11(0xA8) == 0xD4 && times11(0xA9) == 0xDF && times11(0xAA) == 0xC2 && times11(0xAB) == 0xC9
        && times11(0xAC) == 0xF8 && times11(0xAD) == 0xF3 && times11(0xAE) == 0xEE && times11(0xAF) == 0xE5
        && times11(0xB0) == 0x3C && times11(0xB1) == 0x37 && times11(0xB2) == 0x2A && times11(0xB3) == 0x21
        && times11(0xB4) == 0x10 && times11(0xB5) == 0x1B && times11(0xB6) == 0x06 && times11(0xB7) == 0x0D
        && times11(0xB8) == 0x64 && times11(0xB9) == 0x6F && times11(0xBA) == 0x72 && times11(0xBB) == 0x79
        && times11(0xBC) == 0x48 && times11(0xBD) == 0x43 && times11(0xBE) == 0x5E && times11(0xBF) == 0x55
        && times11(0xC0) == 0x01 && times11(0xC1) == 0x0A && times11(0xC2) == 0x17 && times11(0xC3) == 0x1C
        && times11(0xC4) == 0x2D && times11(0xC5) == 0x26 && times11(0xC6) == 0x3B && times11(0xC7) == 0x30
        && times11(0xC8) == 0x59 && times11(0xC9) == 0x52 && times11(0xCA) == 0x4F && times11(0xCB) == 0x44
        && times11(0xCC) == 0x75 && times11(0xCD) == 0x7E && times11(0xCE) == 0x63 && times11(0xCF) == 0x68
        && times11(0xD0) == 0xB1 && times11(0xD1) == 0xBA && times11(0xD2) == 0xA7 && times11(0xD3) == 0xAC
        && times11(0xD4) == 0x9D && times11(0xD5) == 0x96 && times11(0xD6) == 0x8B && times11(0xD7) == 0x80
        && times11(0xD8) == 0xE9 && times11(0xD9) == 0xE2 && times11(0xDA) == 0xFF && times11(0xDB) == 0xF4
        && times11(0xDC) == 0xC5 && times11(0xDD) == 0xCE && times11(0xDE) == 0xD3 && times11(0xDF) == 0xD8
        && times11(0xE0) == 0x7A && times11(0xE1) == 0x71 && times11(0xE2) == 0x6C && times11(0xE3) == 0x67
        && times11(0xE4) == 0x56 && times11(0xE5) == 0x5D && times11(0xE6) == 0x40 && times11(0xE7) == 0x4B
        && times11(0xE8) == 0x22 && times11(0xE9) == 0x29 && times11(0xEA) == 0x34 && times11(0xEB) == 0x3F
        && times11(0xEC) == 0x0E && times11(0xED) == 0x05 && times11(0xEE) == 0x18 && times11(0xEF) == 0x13
        && times11(0xF0) == 0xCA && times11(0xF1) == 0xC1 && times11(0xF2) == 0xDC && times11(0xF3) == 0xD7
        && times11(0xF4) == 0xE6 && times11(0xF5) == 0xED && times11(0xF6) == 0xF0 && times11(0xF7) == 0xFB
        && times11(0xF8) == 0x92 && times11(0xF9) == 0x99 && times11(0xFA) == 0x84 && times11(0xFB) == 0x8F
        && times11(0xFC) == 0xBE && times11(0xFD) == 0xB5 && times11(0xFE) == 0xA8 && times11(0xFF) == 0xA3
    ) by (bit_vector);
}

/// The table of the multiples of 13 holds them.
pub proof fn law_g13(x: u8)
    ensures
        G13@[x as int] == times13(x),
{
    assert(
        times13(0x00) == 0x00 && times13(0x01) == 0x0D && times13(0x02) == 0x1A && times13(0x03) == 0x17
        && times13(0x04) == 0x34 && times13(0x05) == 0x39 && times13(0x06) == 0x2E && times13(0x07) == 0x23
        && times13(0x08) == 0x68 && times13(0x09) == 0x65 && times13(0x0A) == 0x72 && times13(0x0B) == 0x7F
        && times13(0x0C) == 0x5C && times13(0x0D) == 0x51 && times13(0x0E) == 0x46 && times13(0x0F) == 0x4B
        && times13(0x10) == 0xD0 && times13(0x11) == 0xDD && times13(0x12) == 0xCA && times13(0x13) == 0xC7
        && times13(0x14) == 0xE4 && times13(0x15) == 0xE9 && times13(0x16) == 0xFE && times13(0x17) == 0xF3
        && times13(0x18) == 0xB8 && times13(0x19) == 0xB5 && times13(0x1A) == 0xA2 && times13(0x1B) == 0xAF
        && times13(0x1C) == 0x8C && times13(0x1D) == 0x81 && times13(0x1E) == 0x96 && times13(0x1F) == 0x9B
        && times13(0x20) == 0xBB && times13(0x21) == 0xB6 && times13(0x22) == 0xA1 && times13(0x23) == 0xAC
        && times13(0x24) == 0x8F && times13(0x25) == 0x82 && times13(0x26) == 0x95 && times13(0x27) == 0x98
        && times13(0x28) == 0xD3 && times13(0x29) == 0xDE && times13(0x2A) == 0xC9 && times13(0x2B) == 0xC4
        && times13(0x2C) == 0xE7 && times13(0x2D) == 0xEA && times13(0x2E) == 0xFD && times13(0x2F) == 0xF0
        && times13(0x30) == 0x6B && times13(0x31) == 0x66 && times13(0x32) == 0x71 && times13(0x33) == 0x7C
        && times13(0x34) == 0x5F && times13(0x35) == 0x52 && times13(0x36) == 0x45 && times13(0x37) == 0x48
        && times13(0x38) == 0x03 && times13(0x39) == 0x0E && times13(0x3A) == 0x19 && times13(0x3B) == 0x14
        && times13(0x3C) == 0x37 && times13(0x3D) == 0x3A && times13(0x3E) == 0x2D && times13(0x3F) == 0x20
        && times13(0x40) == 0x6D && times13(0x41) == 0x60 && times13(0x42) == 0x77 && times13(0x43) == 0x7A
        && times13(0x44) == 0x59 && times13(0x45) == 0x54 && times13(0x46) == 0x43 && times13(0x47) == 0x4E
        && times13(0x48) == 0x05 && times13(0x49) == 0x08 && times13(0x4A) == 0x1F && times13(0x4B) == 0x12
        && times13(0x4C) == 0x31 && times13(0x4D) == 0x3C && times13(0x4E) == 0x2B && times13(0x4F) == 0x26
        && times13(0x50) == 0xBD && times13(0x51) == 0xB0 && times13(0x52) == 0xA7 && times13(0x53) == 0xAA
        && times13(0x54) == 0x89 && times13(0x55) == 0x84 && times13(0x56) == 0x93 && times13(0x57) == 0x9E
        && times13(0x58) == 0xD5 && times13(0x59) == 0xD8 && times13(0x5A) == 0xCF && times13(0x5B) == 0xC2
        && times13(0x5C) == 0xE1 && times13(0x5D) == 0xEC && times13(0x5E) == 0xFB && times13(0x5F) == 0xF6
        && times13(0x60) == 0xD6 && times13(0x61) == 0xDB && times13(0x62) == 0xCC && times13(0x63) == 0xC1
        && times13(0x64) == 0xE2 && times13(0x65) == 0xEF && times13(0x66) == 0xF8 && times13(0x67) == 0xF5
        && times13(0x68) == 0xBE && times13(0x69) == 0xB3 && times13(0x6A) == 0xA4 && times13(0x6B) == 0xA9
        && times13(0x6C) == 0x8A && times13(0x6D) == 0x87 && times13(0x6E) == 0x90 && times13(0x6F) == 0x9D
        && times13(0x70) == 0x06 && times13(0x71) == 0x0B && times13(0x72) == 0x1C && times13(0x73) == 0x11
        && times13(0x74) == 0x32 && times13(0x75) == 0x3F && times13(0x76) == 0x28 && times13(0x77) == 0x25
        && times13(0x78) == 0x6E && times13(0x79) == 0x63 && times13(0x7A) == 0x74 && times13(0x7B) == 0x79
        && times13(0x7C) == 0x5A && times13(0x7D) == 0x57 && times13(0x7E) == 0x40 && times13(0x7F) == 0x4D
        && times13(0x80) == 0xDA && times13(0x81) == 0xD7 && times13(0x82) == 0xC0 && times13(0x83) == 0xCD
        && times13(0x84) == 0xEE && times13(0x85) == 0xE3 && times13(0x86) == 0xF4 && times13(0x87) == 0xF9
        && times13(0x88) == 0xB2 && times13(0x89) == 0xBF && times13(0x8A) == 0xA8 && times13(0x8B) == 0xA5
        && times13(0x8C) == 0x86 && times13(0x8D) == 0x8B && times13(0x8E) == 0x9C && times13(0x8F) == 0x91
        && times13(0x90) == 0x0A && times13(0x91) == 0x07 && times13(0x92) == 0x10 && times13(0x93) == 0x1D
        && times13(0x94) == 0x3E && times13(0x95) == 0x33 && times13(0x96) == 0x24 && times13(0x97) == 0x29
        && times13(0x98) == 0x62 && times13(0x99) == 0x6F && times13(0x9A) == 0x78 && times13(0x9B) == 0x75
        && times13(0x9C) == 0x56 && times13(0x9D) == 0x5B && times13(0x9E) == 0x4C && times13(0x9F) == 0x41
        && times13(0xA0) == 0x61 && times13(0xA1) == 0x6C && times13(0xA2) == 0x7B && times13(0xA3) == 0x76
        && times13(0xA4) == 0x55 && times13(0xA5) == 0x58 && times13(0xA6) == 0x4F && times13(0xA7) == 0x42
        && times13(0xA8) == 0x09 && times13(0xA9) == 0x04 && times13(0xAA) == 0x13 && times13(0xAB) == 0x1E
        && times13(0xAC) == 0x3D && times13(0xAD) == 0x30 && times13(0xAE) == 0x27 && times13(0xAF) == 0x2A
        && times13(0xB0) == 0xB1 && times13(0xB1) == 0xBC && times13(0xB2) == 0xAB && times13(0xB3) == 0xA6
        && times13(0xB4) == 0x85 && times13(0xB5) == 0x88 && times13(0xB6) == 0x9F && times13(0xB7) == 0x92
        && times13(0xB8) == 0xD9 && times13(0xB9) == 0xD4 && times13(0xBA) == 0xC3 && times13(0xBB) == 0xCE
        && times13(0xBC) == 0xED && times13(0xBD) == 0xE0 && times13(0xBE) == 0xF7 && times13(0xBF) == 0xFA
        && times13(0xC0) == 0xB7 && times13(0xC1) == 0xBA && times13(0xC2) == 0xAD && times13(0xC3) == 0xA0
        && times13(0xC4) == 0x83 && times13(0xC5) == 0x8E && times13(0xC6) == 0x99 && times13(0xC7) == 0x94
        && times13(0xC8) == 0xDF && times13(0xC9) == 0xD2 && times13(0xCA) == 0xC5 && times13(0xCB) == 0xC8
        && times13(0xCC) == 0xEB && times13(0xCD) == 0xE6 && times13(0xCE) == 0xF1 && times13(0xCF) == 0xFC
        && times13(0xD0) == 0x67 && times13(0xD1) == 0x6A && times13(0xD2) == 0x7D && times13(0xD3) == 0x70
        && times13(0xD4) == 0x53 && times13(0xD5) == 0x5E && times13(0xD6) == 0x49 && times13(0xD7) == 0x44
        && times13(0xD8) == 0x0F && times13(0xD9) == 0x02 && times13(0xDA) == 0x15 && times13(0xDB) == 0x18
        && times13(0xDC) == 0x3B && times13(0xDD) == 0x36 && times13(0xDE) == 0x21 && times13(0xDF) == 0x2C
        && times13(0xE0) == 0x0C && times13(0xE1) == 0x01 && times13(0xE2) == 0x16 && times13(0xE3) == 0x1B
        && times13(0xE4) == 0x38 && times13(0xE5) == 0x35 && times13(0xE6) == 0x22 && times13(0xE7) == 0x2F
        && times13(0xE8) == 0x64 && times13(0xE9) == 0x69 && times13(0xEA) == 0x7E && times13(0xEB) == 0x73
        && times13(0xEC) == 0x50 && times13(0xED) == 0x5D && times13(0xEE) == 0x4A && times13(0xEF) == 0x47
        && times13(0xF0) == 0xDC && times13(0xF1) == 0xD1 && times13(0xF2) == 0xC6 && times13(0xF3) == 0xCB
        && times13(0xF4) == 0xE8 && times13(0xF5) == 0xE5 && times13(0xF6) == 0xF2 && times13(0xF7) == 0xFF
        && times13(0xF8) == 0xB4 && times13(0xF9) == 0xB9 && times13(0xFA) == 0xAE && times13(0xFB) == 0xA3
        && times13(0xFC) == 0x80 && times13(0xFD) == 0x8D && times13(0xFE) == 0x9A && times13(0xFF) == 0x97
    ) by (bit_vector);
}

/// The table of the multiples of 14 holds them.
pub proof fn law_g14(x: u8)
    ensures
        G14@[x as int] == times14(x),
{
    assert(
        times14(0x00) == 0x00 && times14(0x01) == 0x0E && times14(0x02) == 0x1C && times14(0x03) == 0x12
        && times14(0x04) == 0x38 && times14(0x05) == 0x36 && times14(0x06) == 0x24 && times14(0x07) == 0x2A
        && times14(0x08) == 0x70 && times14(0x09) == 0x7E && times14(0x0A) == 0x6C && times14(0x0B) == 0x62
        && times14(0x0C) == 0x48 && times14(0x0D) == 0x46 && times14(0x0E) == 0x54 && times14(0x0F) == 0x5A
        && times14(0x10) == 0xE0 && times14(0x11) == 0xEE && times14(0x12) == 0xFC && times14(0x13) == 0xF2
        && times14(0x14) == 0xD8 && times14(0x15) == 0xD6 && times14(0x16) == 0xC4 && times14(0x17) == 0xCA
        && times14(0x18) == 0x90 && times14(0x19) == 0x9E && times14(0x1A) == 0x8C && times14(0x1B) == 0x82
        && times14(0x1C) == 0xA8 && times14(0x1D) == 0xA6 && times14(0x1E) == 0xB4 && times14(0x1F) == 0xBA
        && times14(0x20) == 0xDB && times14(0x21) == 0xD5 && times14(0x22) == 0xC7 && times14(0x23) == 0xC9
        && times14(0x24) == 0xE3 && times14(0x25) == 0xED && times14(0x26) == 0xFF && times14(0x27) == 0xF1
        && times14(0x28) == 0xAB && times14(0x29) == 0xA5 && times14(0x2A) == 0xB7 && times14(0x2B) == 0xB9
        && times14(0x2C) == 0x93 && times14(0x2D) == 0x9D && times14(0x2E) == 0x8F && times14(0x2F) == 0x81
        && times14(0x30) == 0x3B && times14(0x31) == 0x35 && times14(0x32) == 0x27 && times14(0x33) == 0x29
        && times14(0x34) == 0x03 && times14(0x35) == 0x0D && times14(0x36) == 0x1F && times14(0x37) == 0x11
        && times14(0x38) == 0x4B && times14(0x39) == 0x45 && times14(0x3A) == 0x57 && times14(0x3B) == 0x59
        && times14(0x3C) == 0x73 && times14(0x3D) == 0x7D && times14(0x3E) == 0x6F && times14(0x3F) == 0x61
        && times14(0x40) == 0xAD && times14(0x41) == 0xA3 && times14(0x42) == 0xB1 && times14(0x43) == 0xBF
        && times14(0x44) == 0x95 && times14(0x45) == 0x9B && times14(0x46) == 0x89 && times14(0x47) == 0x87
        && times14(0x48) == 0xDD && times14(0x49) == 0xD3 && times14(0x4A) == 0xC1 && times14(0x4B) == 0xCF
        && times14(0x4C) == 0xE5 && times14(0x4D) == 0xEB && times14(0x4E) == 0xF9 && times14(0x4F) == 0xF7
        && times14(0x50) == 0x4D && times14(0x51) == 0x43 && times14(0x52) == 0x51 && times14(0x53) == 0x5F
        && times14(0x54) == 0x75 && times14(0x55) == 0x7B && times14(0x56) == 0x69 && times14(0x57) == 0x67
        && times14(0x58) == 0x3D && times14(0x59) == 0x33 && times14(0x5A) == 0x21 && times14(0x5B) == 0x2F
        && times14(0x5C) == 0x05 && times14(0x5D) == 0x0B && times14(0x5E) == 0x19 && times14(0x5F) == 0x17
        && times14(0x60) == 0x76 && times14(0x61) == 0x78 && times14(0x62) == 0x6A && times14(0x63) == 0x64
        && times14(0x64) == 0x4E && times14(0x65) == 0x40 && times14(0x66) == 0x52 && times14(0x67) == 0x5C
        && times14(0x68) == 0x06 && times14(0x69) == 0x08 && times14(0x6A) == 0x1A && times14(0x6B) == 0x14
        && times14(0x6C) == 0x3E && times14(0x6D) == 0x30 && times14(0x6E) == 0x22 && times14(0x6F) == 0x2C
        && times14(0x70) == 0x96 && times14(0x71) == 0x98 && times14(0x72) == 0x8A && times14(0x73) == 0x84
        && times14(0x74) == 0xAE && times14(0x75) == 0xA0 && times14(0x76) == 0xB2 && times14(0x77) == 0xBC
        && times14(0x78) == 0xE6 && times14(0x79) == 0xE8 && times14(0x7A) == 0xFA && times14(0x7B) == 0xF4
        && times14(0x7C) == 0xDE && times14(0x7D) == 0xD0 && times14(0x7E) == 0xC2 && times14(0x7F) == 0xCC
        && times14(0x80) == 0x41 && times14(0x81) == 0x4F && times14(0x82) == 0x5D && times14(0x83) == 0x53
        && times14(0x84) == 0x79 && times14(0x85) == 0x77 && times14(0x86) == 0x65 && times14(0x87) == 0x6B
        && times14(0x88) == 0x31 && times14(0x89) == 0x3F && times14(0x8A) == 0x2D && times14(0x8B) == 0x23
        && times14(0x8C) == 0x09 && times14(0x8D) == 0x07 && times14(0x8E) == 0x15 && times14(0x8F) == 0x1B
        && times14(0x90) == 0xA1 && times14(0x91) == 0xAF && times14(0x92) == 0xBD && times14(0x93) == 0xB3
        && times14(0x94) == 0x99 && times14(0x95) == 0x97 && times14(0x96) == 0x85 && times14(0x97) == 0x8B
        && times14(0x98) == 0xD1 && times14(0x99) == 0xDF && times14(0x9A) == 0xCD && times14(0x9B) == 0xC3
        && times14(0x9C) == 0xE9 && times14(0x9D) == 0xE7 && times14(0x9E) == 0xF5 && times14(0x9F) == 0xFB
        && times14(0xA0) == 0x9A && times14(0xA1) == 0x94 && times14(0xA2) == 0x86 && times14(0xA3) == 0x88
        && times14(0xA4) == 0xA2 && times14(0xA5) == 0xAC && times14(0xA6) == 0xBE && times14(0xA7) == 0xB0
        && times14(0xA8) == 0xEA && times14(0xA9) == 0xE4 && times14(0xAA) == 0xF6 && times14(0xAB) == 0xF8
        && times14(0xAC) == 0xD2 && times14(0xAD) == 0xDC && times14(0xAE) == 0xCE && times14(0xAF) == 0xC0
        && times14(0xB0) == 0x7A && times14(0xB1) == 0x74 && times14(0xB2) == 0x66 && times14(0xB3) == 0x68
        && times14(0xB4) == 0x42 && times14(0xB5) == 0x4C && times14(0xB6) == 0x5E && times14(0xB7) == 0x50
        && times14(0xB8) == 0x0A && times14(0xB9) == 0x04 && times14(0xBA) == 0x16 && times14(0xBB) == 0x18
        && times14(0xBC) == 0x32 && times14(0xBD) == 0x3C && times14(0xBE) == 0x2E && times14(0xBF) == 0x20
        && times14(0xC0) == 0xEC && times14(0xC1) == 0xE2 && times14(0xC2) == 0xF0 && times14(0xC3) == 0xFE
        && times14(0xC4) == 0xD4 && times14(0xC5) == 0xDA && times14(0xC6) == 0xC8 && times14(0xC7) == 0xC6
        && times14(0xC8) == 0x9C && times14(0xC9) == 0x92 && times14(0xCA) == 0x80 && times14(0xCB) == 0x8E
        && times14(0xCC) == 0xA4 && times14(0xCD) == 0xAA && times14(0xCE) == 0xB8 && times14(0xCF) == 0xB6
        && times14(0xD0) == 0x0C && times14(0xD1) == 0x02 && times14(0xD2) == 0x10 && times14(0xD3) == 0x1E
        && times14(0xD4) == 0x34 && times14(0xD5) == 0x3A && times14(0xD6) == 0x28 && times14(0xD7) == 0x26
        && times14(0xD8) == 0x7C && times14(0xD9) == 0x72 && times14(0xDA) == 0x60 && times14(0xDB) == 0x6E
        && times14(0xDC) == 0x44 && times14(0xDD) == 0x4A && times14(0xDE) == 0x58 && times14(0xDF) == 0x56
        && times14(0xE0) == 0x37 && times14(0xE1) == 0x39 && times14(0xE2) == 0x2B && times14(0xE3) == 0x25
        && times14(0xE4) == 0x0F && times14(0xE5) == 0x01 && times14(0xE6) == 0x13 && times14(0xE7) == 0x1D
        && times14(0xE8) == 0x47 && times14(0xE9) == 0x49 && times14(0xEA) == 0x5B && times14(0xEB) == 0x55
        && times14(0xEC) == 0x7F && times14(0xED) == 0x71 && times14(0xEE) == 0x63 && times14(0xEF) == 0x6D
        && times14(0xF0) == 0xD7 && times14(0xF1) == 0xD9 && times14(0xF2) == 0xCB && times14(0xF3) == 0xC5
        && times14(0xF4) == 0xEF && times14(0xF5) == 0xE1 && times14(0xF6) == 0xF3 && times14(0xF7) == 0xFD
        && times14(0xF8) == 0xA7 && times14(0xF9) == 0xA9 && times14(0xFA) == 0xBB && times14(0xFB) == 0xB5
        && times14(0xFC) == 0x9F && times14(0xFD) == 0x91 && times14(0xFE) == 0x83 && times14(0xFF) == 0x8D
    ) by (bit_vector);
}

/// The substitution boxes undo each other.
pub proof fn law_substitution_is_undone(x: u8)
    ensures
        SBOX@[SBOX_INV@[x as int] as int] == x,
{
}

/// Shifting the rows is undone by shifting them back.
pub proof fn law_shift_is_undone(i: int)
    requires
        0 <= i < 16,
    ensures
        SHIFT_ROWS@[i] < 16,
        SHIFT_ROWS_INV@[i] < 16,
        SHIFT_ROWS_INV@[SHIFT_ROWS@[i] as int] == i,
{
}

/// Doubling four bytes that are added up is doubling each.
proof fn lemma_twice_of_sum(p: u8, q: u8, r: u8, s: u8)
    ensures
        twice(p ^ q ^ r ^ s) == twice(p) ^ twice(q) ^ twice(r) ^ twice(s),
{
    assert(twice(p ^ q ^ r ^ s) == twice(p) ^ twice(q) ^ twice(r) ^ twice(s)) by (bit_vector);
}

/// The products of the two matrices: one on the diagonal, zero elsewhere.
proof fn lemma_products(x: u8)
    ensures
        twice(times14(x)) ^ (twice(times9(x)) ^ times9(x)) ^ times13(x) ^ times11(x) == x,
        twice(times11(x)) ^ (twice(times14(x)) ^ times14(x)) ^ times9(x) ^ times13(x) == 0,
        twice(times13(x)) ^ (twice(times11(x)) ^ times11(x)) ^ times14(x) ^ times9(x) == 0,
        twice(times9(x)) ^ (twice(times13(x)) ^ times13(x)) ^ times11(x) ^ times14(x) == 0,
{
    assert(twice(times14(x)) ^ (twice(times9(x)) ^ times9(x)) ^ times13(x) ^ times11(x) == x)
        by (bit_vector);
    assert(twice(times11(x)) ^ (twice(times14(x)) ^ times14(x)) ^ times9(x) ^ times13(x) == 0)
        by (bit_vector);
    assert(twice(times13(x)) ^ (twice(times11(x)) ^ times11(x)) ^ times14(x) ^ times9(x) == 0)
        by (bit_vector);
    assert(twice(times9(x)) ^ (twice(times13(x)) ^ times13(x)) ^ times11(x) ^ times14(x) == 0)
        by (bit_vector);
}

/// Four bytes for each of four letters, added up letter by letter or place by place.
proof fn lemma_regrouped(
    a1: u8,
    a2: u8,
    a3: u8,
    a4: u8,
    a5: u8,
    b1: u8,
    b2: u8,
    b3: u8,
    b4: u8,
    b5: u8,
    c1: u8,
    c2: u8,
    c3: u8,
    c4: u8,
    c5: u8,
    d1: u8,
    d2: u8,
    d3: u8,
    d4: u8,
    d5: u8,
)
    ensures
        (a1 ^ d1 ^ c1 ^ b1) ^ ((b2 ^ a2 ^ d2 ^ c2) ^ (b3 ^ a3 ^ d3 ^ c3)) ^ (c4 ^ b4 ^ a4 ^ d4) ^ (
        d5 ^ c5 ^ b5 ^ a5) == (a1 ^ (a2 ^ a3) ^ a4 ^ a5) ^ (b1 ^ (b2 ^ b3) ^ b4 ^ b5) ^ (c1 ^ (c2
            ^ c3) ^ c4 ^ c5) ^ (d1 ^ (d2 ^ d3) ^ d4 ^ d5),
{
    assert((a1 ^ d1 ^ c1 ^ b1) ^ ((b2 ^ a2 ^ d2 ^ c2) ^ (b3 ^ a3 ^ d3 ^ c3)) ^ (c4 ^ b4 ^ a4 ^ d4)
        ^ (d5 ^ c5 ^ b5 ^ a5) == (a1 ^ (a2 ^ a3) ^ a4 ^ a5) ^ (b1 ^ (b2 ^ b3) ^ b4 ^ b5) ^ (c1 ^ (
    c2 ^ c3) ^ c4 ^ c5) ^ (d1 ^ (d2 ^ d3) ^ d4 ^ d5)) by (bit_vector);
}

/// Mixing undoes the sums of multiples.
proof fn lemma_mix_undoes(a: u8, b: u8, c: u8, d: u8)
    ensures
        mixed_byte(
            sum_of_multiples(a, b, c, d),
            sum_of_multiples(b, c, d, a),
            sum_of_multiples(c, d, a, b),
            sum_of_multiples(d, a, b, c),
        ) == a,
{
    lemma_twice_of_sum(times14(a), times9(d), times13(c), times11(b));
    lemma_twice_of_sum(times14(b), times9(a), times13(d), times11(c));
    lemma_products(a);
    lemma_products(b);
    lemma_products(c);
    lemma_products(d);
    lemma_regrouped(
        twice(times14(a)),
        twice(times9(a)),
        times9(a),
        times13(a),
        times11(a),
        twice(times11(b)),
        twice(times14(b)),
        times14(b),
        times9(b),
        times13(b),
        twice(times13(c)),
        twice(times11(c)),
        times11(c),
        times14(c),
        times9(c),
        twice(times9(d)),
        twice(times13(d)),
        times13(d),
        times11(d),
        times14(d),
    );
    assert(a ^ 0 ^ 0 ^ 0 == a) by (bit_vector);
}

/// Mixing an unmixed column gives it back.
pub proof fn law_unmixing_is_undone(a: u8, b: u8, c: u8, d: u8)
    ensures
        mixed_byte(
            ec2b::unmixed_byte(a, b, c, d),
            ec2b::unmixed_byte(b, c, d, a),
            ec2b::unmixed_byte(c, d, a, b),
            ec2b::unmixed_byte(d, a, b, c),
        ) == a,
{
    lemma_is_sum_of_multiples(a, b, c, d);
    lemma_is_sum_of_multiples(b, c, d, a);
    lemma_is_sum_of_multiples(c, d, a, b);
    lemma_is_sum_of_multiples(d, a, b, c);
    lemma_mix_undoes(a, b, c, d);
}

proof fn lemma_is_sum_of_multiples(a: u8, b: u8, c: u8, d: u8)
    ensures
        ec2b::unmixed_byte(a, b, c, d) == sum_of_multiples(a, b, c, d),
{
    law_g14(a);
    law_g11(b);
    law_g13(c);
    law_g9(d);
}

} // verus!
