//! The romaji table: keys by length with the kana they fire, and the
//! beginnings of keys.
use vstd::prelude::*;

verus! {

// Key sequences of the romaji table, by length: each gives the kana it fires
// (one or two characters). The table is prefix-free: no key begins another.

pub open spec fn rule1(a: char) -> Option<(char, Option<char>)> {
    match a {
        ',' => Some(('、', None)),
        '-' => Some(('ー', None)),
        '.' => Some(('。', None)),
        '/' => Some(('・', None)),
        '[' => Some(('「', None)),
        ']' => Some(('」', None)),
        'a' => Some(('あ', None)),
        'e' => Some(('え', None)),
        'i' => Some(('い', None)),
        'o' => Some(('お', None)),
        'u' => Some(('う', None)),
        _ => None,
    }
}

pub open spec fn rule2(a: char, b: char) -> Option<(char, Option<char>)> {
    match (a, b) {
        ('b', 'a') => Some(('ば', None)),
        ('b', 'e') => Some(('べ', None)),
        ('b', 'i') => Some(('び', None)),
        ('b', 'o') => Some(('ぼ', None)),
        ('b', 'u') => Some(('ぶ', None)),
        ('c', 'a') => Some(('か', None)),
        ('c', 'e') => Some(('せ', None)),
        ('c', 'i') => Some(('し', None)),
        ('c', 'o') => Some(('こ', None)),
        ('c', 'u') => Some(('く', None)),
        ('d', 'a') => Some(('だ', None)),
        ('d', 'e') => Some(('で', None)),
        ('d', 'i') => Some(('ぢ', None)),
        ('d', 'o') => Some(('ど', None)),
        ('d', 'u') => Some(('づ', None)),
        ('f', 'a') => Some(('ふ', Some('ぁ'))),
        ('f', 'e') => Some(('ふ', Some('ぇ'))),
        ('f', 'i') => Some(('ふ', Some('ぃ'))),
        ('f', 'o') => Some(('ふ', Some('ぉ'))),
        ('f', 'u') => Some(('ふ', None)),
        ('g', 'a') => Some(('が', None)),
        ('g', 'e') => Some(('げ', None)),
        ('g', 'i') => Some(('ぎ', None)),
        ('g', 'o') => Some(('ご', None)),
        ('g', 'u') => Some(('ぐ', None)),
        ('h', 'a') => Some(('は', None)),
        ('h', 'e') => Some(('へ', None)),
        ('h', 'i') => Some(('ひ', None)),
        ('h', 'o') => Some(('ほ', None)),
        ('h', 'u') => Some(('ふ', None)),
        ('j', 'a') => Some(('じ', Some('ゃ'))),
        ('j', 'e') => Some(('じ', Some('ぇ'))),
        ('j', 'i') => Some(('じ', None)),
        ('j', 'o') => Some(('じ', Some('ょ'))),
        ('j', 'u') => Some(('じ', Some('ゅ'))),
        ('k', 'a') => Some(('か', None)),
        ('k', 'e') => Some(('け', None)),
        ('k', 'i') => Some(('き', None)),
        ('k', 'o') => Some(('こ', None)),
        ('k', 'u') => Some(('く', None)),
        ('l', 'a') => Some(('ぁ', None)),
        ('l', 'e') => Some(('ぇ', None)),
        ('l', 'i') => Some(('ぃ', None)),
        ('l', 'o') => Some(('ぉ', None)),
        ('l', 'u') => Some(('ぅ', None)),
        ('m', 'a') => Some(('ま', None)),
        ('m', 'e') => Some(('め', None)),
        ('m', 'i') => Some(('み', None)),
        ('m', 'o') => Some(('も', None)),
        ('m', 'u') => Some(('む', None)),
        ('n', '\'') => Some(('ん', None)),
        ('n', 'a') => Some(('な', None)),
        ('n', 'e') => Some(('ね', None)),
        ('n', 'i') => Some(('に', None)),
        ('n', 'n') => Some(('ん', None)),
        ('n', 'o') => Some(('の', None)),
        ('n', 'u') => Some(('ぬ', None)),
        ('p', 'a') => Some(('ぱ', None)),
        ('p', 'e') => Some(('ぺ', None)),
        ('p', 'i') => Some(('ぴ', None)),
        ('p', 'o') => Some(('ぽ', None)),
        ('p', 'u') => Some(('ぷ', None)),
        ('q', 'a') => Some(('く', Some('ぁ'))),
        ('q', 'e') => Some(('く', Some('ぇ'))),
        ('q', 'i') => Some(('く', Some('ぃ'))),
        ('q', 'o') => Some(('く', Some('ぉ'))),
        ('q', 'u') => Some(('く', None)),
        ('r', 'a') => Some(('ら', None)),
        ('r', 'e') => Some(('れ', None)),
        ('r', 'i') => Some(('り', None)),
        ('r', 'o') => Some(('ろ', None)),
        ('r', 'u') => Some(('る', None)),
        ('s', 'a') => Some(('さ', None)),
        ('s', 'e') => Some(('せ', None)),
        ('s', 'i') => Some(('し', None)),
        ('s', 'o') => Some(('そ', None)),
        ('s', 'u') => Some(('す', None)),
        ('t', 'a') => Some(('た', None)),
        ('t', 'e') => Some(('て', None)),
        ('t', 'i') => Some(('ち', None)),
        ('t', 'o') => Some(('と', None)),
        ('t', 'u') => Some(('つ', None)),
        ('v', 'a') => Some(('ゔ', Some('ぁ'))),
        ('v', 'e') => Some(('ゔ', Some('ぇ'))),
        ('v', 'i') => Some(('ゔ', Some('ぃ'))),
        ('v', 'o') => Some(('ゔ', Some('ぉ'))),
        ('v', 'u') => Some(('ゔ', None)),
        ('w', 'a') => Some(('わ', None)),
        ('w', 'e') => Some(('う', Some('ぇ'))),
        ('w', 'i') => Some(('う', Some('ぃ'))),
        ('w', 'o') => Some(('を', None)),
        ('w', 'u') => Some(('う', None)),
        ('x', 'a') => Some(('ぁ', None)),
        ('x', 'e') => Some(('ぇ', None)),
        ('x', 'i') => Some(('ぃ', None)),
        ('x', 'o') => Some(('ぉ', None)),
        ('x', 'u') => Some(('ぅ', None)),
        ('y', 'a') => Some(('や', None)),
        ('y', 'e') => Some(('い', Some('ぇ'))),
        ('y', 'i') => Some(('い', None)),
        ('y', 'o') => Some(('よ', None)),
        ('y', 'u') => Some(('ゆ', None)),
        ('z', 'a') => Some(('ざ', None)),
        ('z', 'e') => Some(('ぜ', None)),
        ('z', 'i') => Some(('じ', None)),
        ('z', 'o') => Some(('ぞ', None)),
        ('z', 'u') => Some(('ず', None)),
        _ => None,
    }
}

pub open spec fn rule3(a: char, b: char, c: char) -> Option<(char, Option<char>)> {
    match (a, b, c) {
        ('b', 'y', 'a') => Some(('び', Some('ゃ'))),
        ('b', 'y', 'e') => Some(('び', Some('ぇ'))),
        ('b', 'y', 'i') => Some(('び', Some('ぃ'))),
        ('b', 'y', 'o') => Some(('び', Some('ょ'))),
        ('b', 'y', 'u') => Some(('び', Some('ゅ'))),
        ('c', 'h', 'a') => Some(('ち', Some('ゃ'))),
        ('c', 'h', 'e') => Some(('ち', Some('ぇ'))),
        ('c', 'h', 'i') => Some(('ち', None)),
        ('c', 'h', 'o') => Some(('ち', Some('ょ'))),
        ('c', 'h', 'u') => Some(('ち', Some('ゅ'))),
        ('c', 'y', 'a') => Some(('ち', Some('ゃ'))),
        ('c', 'y', 'e') => Some(('ち', Some('ぇ'))),
        ('c', 'y', 'i') => Some(('ち', Some('ぃ'))),
        ('c', 'y', 'o') => Some(('ち', Some('ょ'))),
        ('c', 'y', 'u') => Some(('ち', Some('ゅ'))),
        ('d', 'h', 'a') => Some(('で', Some('ゃ'))),
        ('d', 'h', 'e') => Some(('で', Some('ぇ'))),
        ('d', 'h', 'i') => Some(('で', Some('ぃ'))),
        ('d', 'h', 'o') => Some(('で', Some('ょ'))),
        ('d', 'h', 'u') => Some(('で', Some('ゅ'))),
        ('d', 'y', 'a') => Some(('ぢ', Some('ゃ'))),
        ('d', 'y', 'e') => Some(('ぢ', Some('ぇ'))),
        ('d', 'y', 'i') => Some(('ぢ', Some('ぃ'))),
        ('d', 'y', 'o') => Some(('ぢ', Some('ょ'))),
        ('d', 'y', 'u') => Some(('ぢ', Some('ゅ'))),
        ('f', 'y', 'a') => Some(('ふ', Some('ゃ'))),
        ('f', 'y', 'o') => Some(('ふ', Some('ょ'))),
        ('f', 'y', 'u') => Some(('ふ', Some('ゅ'))),
        ('g', 'y', 'a') => Some(('ぎ', Some('ゃ'))),
        ('g', 'y', 'e') => Some(('ぎ', Some('ぇ'))),
        ('g', 'y', 'i') => Some(('ぎ', Some('ぃ'))),
        ('g', 'y', 'o') => Some(('ぎ', Some('ょ'))),
        ('g', 'y', 'u') => Some(('ぎ', Some('ゅ'))),
        ('h', 'y', 'a') => Some(('ひ', Some('ゃ'))),
        ('h', 'y', 'e') => Some(('ひ', Some('ぇ'))),
        ('h', 'y', 'i') => Some(('ひ', Some('ぃ'))),
        ('h', 'y', 'o') => Some(('ひ', Some('ょ'))),
        ('h', 'y', 'u') => Some(('ひ', Some('ゅ'))),
        ('j', 'y', 'a') => Some(('じ', Some('ゃ'))),
        ('j', 'y', 'e') => Some(('じ', Some('ぇ'))),
        ('j', 'y', 'i') => Some(('じ', Some('ぃ'))),
        ('j', 'y', 'o') => Some(('じ', Some('ょ'))),
        ('j', 'y', 'u') => Some(('じ', Some('ゅ'))),
        ('k', 'y', 'a') => Some(('き', Some('ゃ'))),
        ('k', 'y', 'e') => Some(('き', Some('ぇ'))),
        ('k', 'y', 'i') => Some(('き', Some('ぃ'))),
        ('k', 'y', 'o') => Some(('き', Some('ょ'))),
        ('k', 'y', 'u') => Some(('き', Some('ゅ'))),
        ('l', 'k', 'a') => Some(('ヵ', None)),
        ('l', 'k', 'e') => Some(('ヶ', None)),
        ('l', 't', 'u') => Some(('っ', None)),
        ('l', 'w', 'a') => Some(('ゎ', None)),
        ('l', 'y', 'a') => Some(('ゃ', None)),
        ('l', 'y', 'o') => Some(('ょ', None)),
        ('l', 'y', 'u') => Some(('ゅ', None)),
        ('m', 'y', 'a') => Some(('み', Some('ゃ'))),
        ('m', 'y', 'e') => Some(('み', Some('ぇ'))),
        ('m', 'y', 'i') => Some(('み', Some('ぃ'))),
        ('m', 'y', 'o') => Some(('み', Some('ょ'))),
        ('m', 'y', 'u') => Some(('み', Some('ゅ'))),
        ('n', 'y', 'a') => Some(('に', Some('ゃ'))),
        ('n', 'y', 'e') => Some(('に', Some('ぇ'))),
        ('n', 'y', 'i') => Some(('に', Some('ぃ'))),
        ('n', 'y', 'o') => Some(('に', Some('ょ'))),
        ('n', 'y', 'u') => Some(('に', Some('ゅ'))),
        ('p', 'y', 'a') => Some(('ぴ', Some('ゃ'))),
        ('p', 'y', 'e') => Some(('ぴ', Some('ぇ'))),
        ('p', 'y', 'i') => Some(('ぴ', Some('ぃ'))),
        ('p', 'y', 'o') => Some(('ぴ', Some('ょ'))),
        ('p', 'y', 'u') => Some(('ぴ', Some('ゅ'))),
        ('r', 'y', 'a') => Some(('り', Some('ゃ'))),
        ('r', 'y', 'e') => Some(('り', Some('ぇ'))),
        ('r', 'y', 'i') => Some(('り', Some('ぃ'))),
        ('r', 'y', 'o') => Some(('り', Some('ょ'))),
        ('r', 'y', 'u') => Some(('り', Some('ゅ'))),
        ('s', 'h', 'a') => Some(('し', Some('ゃ'))),
        ('s', 'h', 'e') => Some(('し', Some('ぇ'))),
        ('s', 'h', 'i') => Some(('し', None)),
        ('s', 'h', 'o') => Some(('し', Some('ょ'))),
        ('s', 'h', 'u') => Some(('し', Some('ゅ'))),
        ('s', 'y', 'a') => Some(('し', Some('ゃ'))),
        ('s', 'y', 'e') => Some(('し', Some('ぇ'))),
        ('s', 'y', 'i') => Some(('し', Some('ぃ'))),
        ('s', 'y', 'o') => Some(('し', Some('ょ'))),
        ('s', 'y', 'u') => Some(('し', Some('ゅ'))),
        ('t', 'h', 'a') => Some(('て', Some('ゃ'))),
        ('t', 'h', 'e') => Some(('て', Some('ぇ'))),
        ('t', 'h', 'i') => Some(('て', Some('ぃ'))),
        ('t', 'h', 'o') => Some(('て', Some('ょ'))),
        ('t', 'h', 'u') => Some(('て', Some('ゅ'))),
        ('t', 's', 'a') => Some(('つ', Some('ぁ'))),
        ('t', 's', 'e') => Some(('つ', Some('ぇ'))),
        ('t', 's', 'i') => Some(('つ', Some('ぃ'))),
        ('t', 's', 'o') => Some(('つ', Some('ぉ'))),
        ('t', 's', 'u') => Some(('つ', None)),
        ('t', 'y', 'a') => Some(('ち', Some('ゃ'))),
        ('t', 'y', 'e') => Some(('ち', Some('ぇ'))),
        ('t', 'y', 'i') => Some(('ち', Some('ぃ'))),
        ('t', 'y', 'o') => Some(('ち', Some('ょ'))),
        ('t', 'y', 'u') => Some(('ち', Some('ゅ'))),
        ('x', 'k', 'a') => Some(('ヵ', None)),
        ('x', 'k', 'e') => Some(('ヶ', None)),
        ('x', 't', 'u') => Some(('っ', None)),
        ('x', 'w', 'a') => Some(('ゎ', None)),
        ('x', 'y', 'a') => Some(('ゃ', None)),
        ('x', 'y', 'o') => Some(('ょ', None)),
        ('x', 'y', 'u') => Some(('ゅ', None)),
        ('z', 'y', 'a') => Some(('じ', Some('ゃ'))),
        ('z', 'y', 'e') => Some(('じ', Some('ぇ'))),
        ('z', 'y', 'i') => Some(('じ', Some('ぃ'))),
        ('z', 'y', 'o') => Some(('じ', Some('ょ'))),
        ('z', 'y', 'u') => Some(('じ', Some('ゅ'))),
        _ => None,
    }
}

pub open spec fn rule4(a: char, b: char, c: char, d: char) -> Option<(char, Option<char>)> {
    match (a, b, c, d) {
        ('l', 't', 's', 'u') => Some(('っ', None)),
        ('x', 't', 's', 'u') => Some(('っ', None)),
        _ => None,
    }
}

pub open spec fn key_prefix1(a: char) -> bool {
    match a {
        'b' | 'c' | 'd' | 'f' | 'g' | 'h' | 'j' | 'k' | 'l' | 'm' | 'n' | 'p' | 'q' | 'r' | 's' | 't' | 'v' | 'w' | 'x' | 'y' | 'z' => true,
        _ => false,
    }
}

pub open spec fn key_prefix2(a: char, b: char) -> bool {
    match (a, b) {
        ('b', 'y') | ('c', 'h') | ('c', 'y') | ('d', 'h') | ('d', 'y') | ('f', 'y') | ('g', 'y') | ('h', 'y') | ('j', 'y') | ('k', 'y') | ('l', 'k') | ('l', 't') | ('l', 'w') | ('l', 'y') | ('m', 'y') | ('n', 'y') | ('p', 'y') | ('r', 'y') | ('s', 'h') | ('s', 'y') | ('t', 'h') | ('t', 's') | ('t', 'y') | ('x', 'k') | ('x', 't') | ('x', 'w') | ('x', 'y') | ('z', 'y') => true,
        _ => false,
    }
}

pub open spec fn key_prefix3(a: char, b: char, c: char) -> bool {
    match (a, b, c) {
        ('l', 't', 's') | ('x', 't', 's') => true,
        _ => false,
    }
}

// Executable lookups, one per table above.

pub fn rule1_exec(a: char) -> (r: Option<(char, Option<char>)>)
    ensures
        r == rule1(a),
{
    match a {
        ',' => Some(('、', None)),
        '-' => Some(('ー', None)),
        '.' => Some(('。', None)),
        '/' => Some(('・', None)),
        '[' => Some(('「', None)),
        ']' => Some(('」', None)),
        'a' => Some(('あ', None)),
        'e' => Some(('え', None)),
        'i' => Some(('い', None)),
        'o' => Some(('お', None)),
        'u' => Some(('う', None)),
        _ => None,
    }
}

pub fn rule2_exec(a: char, b: char) -> (r: Option<(char, Option<char>)>)
    ensures
        r == rule2(a, b),
{
    match (a, b) {
        ('b', 'a') => Some(('ば', None)),
        ('b', 'e') => Some(('べ', None)),
        ('b', 'i') => Some(('び', None)),
        ('b', 'o') => Some(('ぼ', None)),
        ('b', 'u') => Some(('ぶ', None)),
        ('c', 'a') => Some(('か', None)),
        ('c', 'e') => Some(('せ', None)),
        ('c', 'i') => Some(('し', None)),
        ('c', 'o') => Some(('こ', None)),
        ('c', 'u') => Some(('く', None)),
        ('d', 'a') => Some(('だ', None)),
        ('d', 'e') => Some(('で', None)),
        ('d', 'i') => Some(('ぢ', None)),
        ('d', 'o') => Some(('ど', None)),
        ('d', 'u') => Some(('づ', None)),
        ('f', 'a') => Some(('ふ', Some('ぁ'))),
        ('f', 'e') => Some(('ふ', Some('ぇ'))),
        ('f', 'i') => Some(('ふ', Some('ぃ'))),
        ('f', 'o') => Some(('ふ', Some('ぉ'))),
        ('f', 'u') => Some(('ふ', None)),
        ('g', 'a') => Some(('が', None)),
        ('g', 'e') => Some(('げ', None)),
        ('g', 'i') => Some(('ぎ', None)),
        ('g', 'o') => Some(('ご', None)),
        ('g', 'u') => Some(('ぐ', None)),
        ('h', 'a') => Some(('は', None)),
        ('h', 'e') => Some(('へ', None)),
        ('h', 'i') => Some(('ひ', None)),
        ('h', 'o') => Some(('ほ', None)),
        ('h', 'u') => Some(('ふ', None)),
        ('j', 'a') => Some(('じ', Some('ゃ'))),
        ('j', 'e') => Some(('じ', Some('ぇ'))),
        ('j', 'i') => Some(('じ', None)),
        ('j', 'o') => Some(('じ', Some('ょ'))),
        ('j', 'u') => Some(('じ', Some('ゅ'))),
        ('k', 'a') => Some(('か', None)),
        ('k', 'e') => Some(('け', None)),
        ('k', 'i') => Some(('き', None)),
        ('k', 'o') => Some(('こ', None)),
        ('k', 'u') => Some(('く', None)),
        ('l', 'a') => Some(('ぁ', None)),
        ('l', 'e') => Some(('ぇ', None)),
        ('l', 'i') => Some(('ぃ', None)),
        ('l', 'o') => Some(('ぉ', None)),
        ('l', 'u') => Some(('ぅ', None)),
        ('m', 'a') => Some(('ま', None)),
        ('m', 'e') => Some(('め', None)),
        ('m', 'i') => Some(('み', None)),
        ('m', 'o') => Some(('も', None)),
        ('m', 'u') => Some(('む', None)),
        ('n', '\'') => Some(('ん', None)),
        ('n', 'a') => Some(('な', None)),
        ('n', 'e') => Some(('ね', None)),
        ('n', 'i') => Some(('に', None)),
        ('n', 'n') => Some(('ん', None)),
        ('n', 'o') => Some(('の', None)),
        ('n', 'u') => Some(('ぬ', None)),
        ('p', 'a') => Some(('ぱ', None)),
        ('p', 'e') => Some(('ぺ', None)),
        ('p', 'i') => Some(('ぴ', None)),
        ('p', 'o') => Some(('ぽ', None)),
        ('p', 'u') => Some(('ぷ', None)),
        ('q', 'a') => Some(('く', Some('ぁ'))),
        ('q', 'e') => Some(('く', Some('ぇ'))),
        ('q', 'i') => Some(('く', Some('ぃ'))),
        ('q', 'o') => Some(('く', Some('ぉ'))),
        ('q', 'u') => Some(('く', None)),
        ('r', 'a') => Some(('ら', None)),
        ('r', 'e') => Some(('れ', None)),
        ('r', 'i') => Some(('り', None)),
        ('r', 'o') => Some(('ろ', None)),
        ('r', 'u') => Some(('る', None)),
        ('s', 'a') => Some(('さ', None)),
        ('s', 'e') => Some(('せ', None)),
        ('s', 'i') => Some(('し', None)),
        ('s', 'o') => Some(('そ', None)),
        ('s', 'u') => Some(('す', None)),
        ('t', 'a') => Some(('た', None)),
        ('t', 'e') => Some(('て', None)),
        ('t', 'i') => Some(('ち', None)),
        ('t', 'o') => Some(('と', None)),
        ('t', 'u') => Some(('つ', None)),
        ('v', 'a') => Some(('ゔ', Some('ぁ'))),
        ('v', 'e') => Some(('ゔ', Some('ぇ'))),
        ('v', 'i') => Some(('ゔ', Some('ぃ'))),
        ('v', 'o') => Some(('ゔ', Some('ぉ'))),
        ('v', 'u') => Some(('ゔ', None)),
        ('w', 'a') => Some(('わ', None)),
        ('w', 'e') => Some(('う', Some('ぇ'))),
        ('w', 'i') => Some(('う', Some('ぃ'))),
        ('w', 'o') => Some(('を', None)),
        ('w', 'u') => Some(('う', None)),
        ('x', 'a') => Some(('ぁ', None)),
        ('x', 'e') => Some(('ぇ', None)),
        ('x', 'i') => Some(('ぃ', None)),
        ('x', 'o') => Some(('ぉ', None)),
        ('x', 'u') => Some(('ぅ', None)),
        ('y', 'a') => Some(('や', None)),
        ('y', 'e') => Some(('い', Some('ぇ'))),
        ('y', 'i') => Some(('い', None)),
        ('y', 'o') => Some(('よ', None)),
        ('y', 'u') => Some(('ゆ', None)),
        ('z', 'a') => Some(('ざ', None)),
        ('z', 'e') => Some(('ぜ', None)),
        ('z', 'i') => Some(('じ', None)),
        ('z', 'o') => Some(('ぞ', None)),
        ('z', 'u') => Some(('ず', None)),
        _ => None,
    }
}

pub fn rule3_exec(a: char, b: char, c: char) -> (r: Option<(char, Option<char>)>)
    ensures
        r == rule3(a, b, c),
{
    match (a, b, c) {
        ('b', 'y', 'a') => Some(('び', Some('ゃ'))),
        ('b', 'y', 'e') => Some(('び', Some('ぇ'))),
        ('b', 'y', 'i') => Some(('び', Some('ぃ'))),
        ('b', 'y', 'o') => Some(('び', Some('ょ'))),
        ('b', 'y', 'u') => Some(('び', Some('ゅ'))),
        ('c', 'h', 'a') => Some(('ち', Some('ゃ'))),
        ('c', 'h', 'e') => Some(('ち', Some('ぇ'))),
        ('c', 'h', 'i') => Some(('ち', None)),
        ('c', 'h', 'o') => Some(('ち', Some('ょ'))),
        ('c', 'h', 'u') => Some(('ち', Some('ゅ'))),
        ('c', 'y', 'a') => Some(('ち', Some('ゃ'))),
        ('c', 'y', 'e') => Some(('ち', Some('ぇ'))),
        ('c', 'y', 'i') => Some(('ち', Some('ぃ'))),
        ('c', 'y', 'o') => Some(('ち', Some('ょ'))),
        ('c', 'y', 'u') => Some(('ち', Some('ゅ'))),
        ('d', 'h', 'a') => Some(('で', Some('ゃ'))),
        ('d', 'h', 'e') => Some(('で', Some('ぇ'))),
        ('d', 'h', 'i') => Some(('で', Some('ぃ'))),
        ('d', 'h', 'o') => Some(('で', Some('ょ'))),
        ('d', 'h', 'u') => Some(('で', Some('ゅ'))),
        ('d', 'y', 'a') => Some(('ぢ', Some('ゃ'))),
        ('d', 'y', 'e') => Some(('ぢ', Some('ぇ'))),
        ('d', 'y', 'i') => Some(('ぢ', Some('ぃ'))),
        ('d', 'y', 'o') => Some(('ぢ', Some('ょ'))),
        ('d', 'y', 'u') => Some(('ぢ', Some('ゅ'))),
        ('f', 'y', 'a') => Some(('ふ', Some('ゃ'))),
        ('f', 'y', 'o') => Some(('ふ', Some('ょ'))),
        ('f', 'y', 'u') => Some(('ふ', Some('ゅ'))),
        ('g', 'y', 'a') => Some(('ぎ', Some('ゃ'))),
        ('g', 'y', 'e') => Some(('ぎ', Some('ぇ'))),
        ('g', 'y', 'i') => Some(('ぎ', Some('ぃ'))),
        ('g', 'y', 'o') => Some(('ぎ', Some('ょ'))),
        ('g', 'y', 'u') => Some(('ぎ', Some('ゅ'))),
        ('h', 'y', 'a') => Some(('ひ', Some('ゃ'))),
        ('h', 'y', 'e') => Some(('ひ', Some('ぇ'))),
        ('h', 'y', 'i') => Some(('ひ', Some('ぃ'))),
        ('h', 'y', 'o') => Some(('ひ', Some('ょ'))),
        ('h', 'y', 'u') => Some(('ひ', Some('ゅ'))),
        ('j', 'y', 'a') => Some(('じ', Some('ゃ'))),
        ('j', 'y', 'e') => Some(('じ', Some('ぇ'))),
        ('j', 'y', 'i') => Some(('じ', Some('ぃ'))),
        ('j', 'y', 'o') => Some(('じ', Some('ょ'))),
        ('j', 'y', 'u') => Some(('じ', Some('ゅ'))),
        ('k', 'y', 'a') => Some(('き', Some('ゃ'))),
        ('k', 'y', 'e') => Some(('き', Some('ぇ'))),
        ('k', 'y', 'i') => Some(('き', Some('ぃ'))),
        ('k', 'y', 'o') => Some(('き', Some('ょ'))),
        ('k', 'y', 'u') => Some(('き', Some('ゅ'))),
        ('l', 'k', 'a') => Some(('ヵ', None)),
        ('l', 'k', 'e') => Some(('ヶ', None)),
        ('l', 't', 'u') => Some(('っ', None)),
        ('l', 'w', 'a') => Some(('ゎ', None)),
        ('l', 'y', 'a') => Some(('ゃ', None)),
        ('l', 'y', 'o') => Some(('ょ', None)),
        ('l', 'y', 'u') => Some(('ゅ', None)),
        ('m', 'y', 'a') => Some(('み', Some('ゃ'))),
        ('m', 'y', 'e') => Some(('み', Some('ぇ'))),
        ('m', 'y', 'i') => Some(('み', Some('ぃ'))),
        ('m', 'y', 'o') => Some(('み', Some('ょ'))),
        ('m', 'y', 'u') => Some(('み', Some('ゅ'))),
        ('n', 'y', 'a') => Some(('に', Some('ゃ'))),
        ('n', 'y', 'e') => Some(('に', Some('ぇ'))),
        ('n', 'y', 'i') => Some(('に', Some('ぃ'))),
        ('n', 'y', 'o') => Some(('に', Some('ょ'))),
        ('n', 'y', 'u') => Some(('に', Some('ゅ'))),
        ('p', 'y', 'a') => Some(('ぴ', Some('ゃ'))),
        ('p', 'y', 'e') => Some(('ぴ', Some('ぇ'))),
        ('p', 'y', 'i') => Some(('ぴ', Some('ぃ'))),
        ('p', 'y', 'o') => Some(('ぴ', Some('ょ'))),
        ('p', 'y', 'u') => Some(('ぴ', Some('ゅ'))),
        ('r', 'y', 'a') => Some(('り', Some('ゃ'))),
        ('r', 'y', 'e') => Some(('り', Some('ぇ'))),
        ('r', 'y', 'i') => Some(('り', Some('ぃ'))),
        ('r', 'y', 'o') => Some(('り', Some('ょ'))),
        ('r', 'y', 'u') => Some(('り', Some('ゅ'))),
        ('s', 'h', 'a') => Some(('し', Some('ゃ'))),
        ('s', 'h', 'e') => Some(('し', Some('ぇ'))),
        ('s', 'h', 'i') => Some(('し', None)),
        ('s', 'h', 'o') => Some(('し', Some('ょ'))),
        ('s', 'h', 'u') => Some(('し', Some('ゅ'))),
        ('s', 'y', 'a') => Some(('し', Some('ゃ'))),
        ('s', 'y', 'e') => Some(('し', Some('ぇ'))),
        ('s', 'y', 'i') => Some(('し', Some('ぃ'))),
        ('s', 'y', 'o') => Some(('し', Some('ょ'))),
        ('s', 'y', 'u') => Some(('し', Some('ゅ'))),
        ('t', 'h', 'a') => Some(('て', Some('ゃ'))),
        ('t', 'h', 'e') => Some(('て', Some('ぇ'))),
        ('t', 'h', 'i') => Some(('て', Some('ぃ'))),
        ('t', 'h', 'o') => Some(('て', Some('ょ'))),
        ('t', 'h', 'u') => Some(('て', Some('ゅ'))),
        ('t', 's', 'a') => Some(('つ', Some('ぁ'))),
        ('t', 's', 'e') => Some(('つ', Some('ぇ'))),
        ('t', 's', 'i') => Some(('つ', Some('ぃ'))),
        ('t', 's', 'o') => Some(('つ', Some('ぉ'))),
        ('t', 's', 'u') => Some(('つ', None)),
        ('t', 'y', 'a') => Some(('ち', Some('ゃ'))),
        ('t', 'y', 'e') => Some(('ち', Some('ぇ'))),
        ('t', 'y', 'i') => Some(('ち', Some('ぃ'))),
        ('t', 'y', 'o') => Some(('ち', Some('ょ'))),
        ('t', 'y', 'u') => Some(('ち', Some('ゅ'))),
        ('x', 'k', 'a') => Some(('ヵ', None)),
        ('x', 'k', 'e') => Some(('ヶ', None)),
        ('x', 't', 'u') => Some(('っ', None)),
        ('x', 'w', 'a') => Some(('ゎ', None)),
        ('x', 'y', 'a') => Some(('ゃ', None)),
        ('x', 'y', 'o') => Some(('ょ', None)),
        ('x', 'y', 'u') => Some(('ゅ', None)),
        ('z', 'y', 'a') => Some(('じ', Some('ゃ'))),
        ('z', 'y', 'e') => Some(('じ', Some('ぇ'))),
        ('z', 'y', 'i') => Some(('じ', Some('ぃ'))),
        ('z', 'y', 'o') => Some(('じ', Some('ょ'))),
        ('z', 'y', 'u') => Some(('じ', Some('ゅ'))),
        _ => None,
    }
}

pub fn rule4_exec(a: char, b: char, c: char, d: char) -> (r: Option<(char, Option<char>)>)
    ensures
        r == rule4(a, b, c, d),
{
    match (a, b, c, d) {
        ('l', 't', 's', 'u') => Some(('っ', None)),
        ('x', 't', 's', 'u') => Some(('っ', None)),
        _ => None,
    }
}

pub fn key_prefix1_exec(a: char) -> (r: bool)
    ensures
        r == key_prefix1(a),
{
    match a {
        'b' | 'c' | 'd' | 'f' | 'g' | 'h' | 'j' | 'k' | 'l' | 'm' | 'n' | 'p' | 'q' | 'r' | 's' | 't' | 'v' | 'w' | 'x' | 'y' | 'z' => true,
        _ => false,
    }
}

pub fn key_prefix2_exec(a: char, b: char) -> (r: bool)
    ensures
        r == key_prefix2(a, b),
{
    match (a, b) {
        ('b', 'y') | ('c', 'h') | ('c', 'y') | ('d', 'h') | ('d', 'y') | ('f', 'y') | ('g', 'y') | ('h', 'y') | ('j', 'y') | ('k', 'y') | ('l', 'k') | ('l', 't') | ('l', 'w') | ('l', 'y') | ('m', 'y') | ('n', 'y') | ('p', 'y') | ('r', 'y') | ('s', 'h') | ('s', 'y') | ('t', 'h') | ('t', 's') | ('t', 'y') | ('x', 'k') | ('x', 't') | ('x', 'w') | ('x', 'y') | ('z', 'y') => true,
        _ => false,
    }
}

pub fn key_prefix3_exec(a: char, b: char, c: char) -> (r: bool)
    ensures
        r == key_prefix3(a, b, c),
{
    match (a, b, c) {
        ('l', 't', 's') | ('x', 't', 's') => true,
        _ => false,
    }
}

} // verus!
