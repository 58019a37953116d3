use std::cell::RefCell;

use debarchive::{Archive, Codec, Entry};

// Packages as `dpkg-deb` builds them from one control file and one file of
// data, once for each codec.
const PACKAGE_XZ: &[u8] = &[
    0x21, 0x3c, 0x61, 0x72, 0x63, 0x68, 0x3e, 0x0a, 0x64, 0x65, 0x62, 0x69, 0x61, 0x6e, 0x2d, 0x62,
    0x69, 0x6e, 0x61, 0x72, 0x79, 0x20, 0x20, 0x20, 0x31, 0x37, 0x39, 0x33, 0x32, 0x32, 0x38, 0x37,
    0x30, 0x39, 0x20, 0x20, 0x30, 0x20, 0x20, 0x20, 0x20, 0x20, 0x30, 0x20, 0x20, 0x20, 0x20, 0x20,
    0x31, 0x30, 0x30, 0x36, 0x34, 0x34, 0x20, 0x20, 0x34, 0x20, 0x20, 0x20, 0x20, 0x20, 0x20, 0x20,
    0x20, 0x20, 0x60, 0x0a, 0x32, 0x2e, 0x30, 0x0a, 0x63, 0x6f, 0x6e, 0x74, 0x72, 0x6f, 0x6c, 0x2e,
    0x74, 0x61, 0x72, 0x2e, 0x78, 0x7a, 0x20, 0x20, 0x31, 0x37, 0x39, 0x33, 0x32, 0x32, 0x38, 0x37,
    0x30, 0x39, 0x20, 0x20, 0x30, 0x20, 0x20, 0x20, 0x20, 0x20, 0x30, 0x20, 0x20, 0x20, 0x20, 0x20,
    0x31, 0x30, 0x30, 0x36, 0x34, 0x34, 0x20, 0x20, 0x33, 0x30, 0x34, 0x20, 0x20, 0x20, 0x20, 0x20,
    0x20, 0x20, 0x60, 0x0a, 0xfd, 0x37, 0x7a, 0x58, 0x5a, 0x00, 0x00, 0x04, 0xe6, 0xd6, 0xb4, 0x46,
    0x04, 0xc0, 0xef, 0x01, 0x80, 0x50, 0x21, 0x01, 0x16, 0x00, 0x00, 0x00, 0x00, 0x00, 0x00, 0x00,
    0x69, 0x77, 0x13, 0x2d, 0xe0, 0x27, 0xff, 0x00, 0xe7, 0x5d, 0x00, 0x17, 0x0b, 0xbc, 0x1c, 0x7d,
    0x01, 0x95, 0xc0, 0x1d, 0x4a, 0x3e, 0x79, 0x15, 0xc2, 0xcc, 0x26, 0xa3, 0x63, 0x16, 0x67, 0x8d,
    0x8a, 0x6e, 0xee, 0xbe, 0x85, 0x8f, 0xf2, 0xd4, 0x19, 0xed, 0x92, 0x59, 0xd1, 0x0b, 0x90, 0x59,
    0xa8, 0xe3, 0xf7, 0x60, 0x03, 0xf8, 0x8a, 0x98, 0x6d, 0x1e, 0x2e, 0x1b, 0xf2, 0x15, 0x96, 0xda,
    0x0b, 0xdd, 0xc4, 0x5f, 0xce, 0x45, 0x27, 0x4b, 0x0a, 0xde, 0xf7, 0x1d, 0x1d, 0xf8, 0x46, 0x38,
    0xca, 0x88, 0xba, 0xa3, 0x64, 0x91, 0x85, 0x3c, 0x9b, 0x4a, 0xd6, 0x44, 0xfd, 0x4d, 0x62, 0x9e,
    0x19, 0xf0, 0x2c, 0xb8, 0x2a, 0xf6, 0x35, 0x68, 0x35, 0x2b, 0xa0, 0x72, 0xb2, 0x9e, 0x92, 0x9f,
    0x4d, 0xc5, 0x7a, 0xca, 0xf3, 0xaf, 0x2a, 0xe1, 0xae, 0x8b, 0x23, 0x54, 0xc2, 0x31, 0x3d, 0xb5,
    0xc8, 0xf2, 0x72, 0xb4, 0xcb, 0x53, 0xb9, 0x27, 0xbc, 0x07, 0x17, 0xab, 0x45, 0x2f, 0xfe, 0xec,
    0x41, 0x5d, 0x7d, 0xdd, 0x3d, 0x0e, 0x37, 0x1a, 0x23, 0x6b, 0x32, 0xe8, 0x28, 0xbc, 0xe1, 0xe2,
    0xce, 0xf5, 0x54, 0xb3, 0xf3, 0xda, 0x9f, 0x3c, 0xc7, 0x56, 0xab, 0xac, 0x82, 0xd2, 0xdc, 0xec,
    0x70, 0xce, 0x9a, 0xae, 0x7f, 0xcd, 0x70, 0x6b, 0xca, 0x73, 0x2a, 0x05, 0xa2, 0x65, 0x2b, 0xec,
    0x69, 0xf7, 0x1b, 0x4c, 0xb4, 0x00, 0x5b, 0x53, 0x05, 0x7f, 0xa1, 0x74, 0x08, 0x38, 0x8b, 0xff,
    0xde, 0x83, 0xa6, 0xce, 0x8b, 0x27, 0xd6, 0x98, 0xa9, 0x46, 0x01, 0x71, 0x1a, 0x25, 0xee, 0x23,
    0x4f, 0x20, 0x3f, 0x99, 0xdf, 0x6c, 0xa6, 0x4b, 0xd3, 0x8f, 0xed, 0x49, 0x54, 0xfb, 0xe2, 0x20,
    0x87, 0x00, 0x00, 0x00, 0x90, 0xce, 0xaa, 0xe7, 0xef, 0x5f, 0x54, 0xcc, 0x00, 0x01, 0x8b, 0x02,
    0x80, 0x50, 0x00, 0x00, 0x2d, 0xfb, 0x07, 0x4c, 0xb1, 0xc4, 0x67, 0xfb, 0x02, 0x00, 0x00, 0x00,
    0x00, 0x04, 0x59, 0x5a, 0x64, 0x61, 0x74, 0x61, 0x2e, 0x74, 0x61, 0x72, 0x2e, 0x78, 0x7a, 0x20,
    0x20, 0x20, 0x20, 0x20, 0x31, 0x37, 0x39, 0x33, 0x32, 0x32, 0x38, 0x37, 0x30, 0x39, 0x20, 0x20,
    0x30, 0x20, 0x20, 0x20, 0x20, 0x20, 0x30, 0x20, 0x20, 0x20, 0x20, 0x20, 0x31, 0x30, 0x30, 0x36,
    0x34, 0x34, 0x20, 0x20, 0x32, 0x35, 0x36, 0x20, 0x20, 0x20, 0x20, 0x20, 0x20, 0x20, 0x60, 0x0a,
    0xfd, 0x37, 0x7a, 0x58, 0x5a, 0x00, 0x00, 0x04, 0xe6, 0xd6, 0xb4, 0x46, 0x04, 0xc0, 0xbe, 0x01,
    0x80, 0x50, 0x21, 0x01, 0x16, 0x00, 0x00, 0x00, 0x00, 0x00, 0x00, 0x00, 0x82, 0x5d, 0x17, 0x97,
    0xe0, 0x27, 0xff, 0x00, 0xb6, 0x5d, 0x00, 0x17, 0x0b, 0xbc, 0x1c, 0x7d, 0x01, 0x95, 0xc0, 0x1d,
    0x4a, 0x3e, 0x79, 0x15, 0xc2, 0xcc, 0x26, 0xa3, 0x63, 0x16, 0x67, 0x8d, 0x8a, 0x6e, 0xee, 0xbe,
    0x85, 0x8f, 0xf2, 0xd4, 0x19, 0xed, 0x92, 0x59, 0xd1, 0x0b, 0x90, 0x59, 0xa8, 0xe3, 0xf7, 0x60,
    0x03, 0xf8, 0x8a, 0x98, 0x6d, 0x1e, 0x2e, 0x1b, 0xf2, 0x15, 0x96, 0xda, 0x0b, 0xdd, 0xc4, 0x61,
    0x8e, 0x90, 0x55, 0x39, 0x58, 0x54, 0xe6, 0xa4, 0xaf, 0x18, 0xc4, 0x36, 0x99, 0x12, 0x5a, 0xc5,
    0xa0, 0x8c, 0x84, 0x7a, 0x1b, 0x04, 0x81, 0x22, 0xbc, 0x37, 0x6a, 0x29, 0x93, 0x90, 0xc1, 0x6d,
    0xb0, 0x40, 0x28, 0x7f, 0x2f, 0xf6, 0x21, 0x51, 0x47, 0x61, 0x23, 0x66, 0x4c, 0xfa, 0x55, 0x7b,
    0x14, 0xe5, 0x27, 0x66, 0x0b, 0x91, 0x35, 0x05, 0xaf, 0xa7, 0x37, 0xbe, 0x0c, 0x83, 0x37, 0x40,
    0x71, 0x8a, 0xb3, 0x8f, 0x3e, 0x62, 0x9a, 0x6f, 0xce, 0xe2, 0x90, 0xcc, 0x78, 0x58, 0xaa, 0x94,
    0x0c, 0x0d, 0x4c, 0x28, 0x54, 0x14, 0x7b, 0x56, 0xdf, 0xb1, 0x57, 0x8e, 0x12, 0xa6, 0x77, 0x31,
    0x68, 0xaa, 0x90, 0x59, 0x43, 0xb6, 0xa3, 0x2e, 0xf8, 0x0f, 0x9a, 0x11, 0xe2, 0x42, 0x8a, 0x89,
    0xbf, 0x63, 0xb0, 0x55, 0x40, 0xc7, 0x95, 0x97, 0x8f, 0xbb, 0x43, 0x5e, 0x00, 0x00, 0x00, 0x00,
    0x8a, 0x79, 0xe1, 0x12, 0xc4, 0xcf, 0xa3, 0xf6, 0x00, 0x01, 0xda, 0x01, 0x80, 0x50, 0x00, 0x00,
    0xaf, 0x5a, 0x75, 0xcc, 0xb1, 0xc4, 0x67, 0xfb, 0x02, 0x00, 0x00, 0x00, 0x00, 0x04, 0x59, 0x5a,
];

const PACKAGE_ZSTD: &[u8] = &[
    0x21, 0x3c, 0x61, 0x72, 0x63, 0x68, 0x3e, 0x0a, 0x64, 0x65, 0x62, 0x69, 0x61, 0x6e, 0x2d, 0x62,
    0x69, 0x6e, 0x61, 0x72, 0x79, 0x20, 0x20, 0x20, 0x31, 0x37, 0x39, 0x33, 0x32, 0x32, 0x38, 0x37,
    0x32, 0x33, 0x20, 0x20, 0x30, 0x20, 0x20, 0x20, 0x20, 0x20, 0x30, 0x20, 0x20, 0x20, 0x20, 0x20,
    0x31, 0x30, 0x30, 0x36, 0x34, 0x34, 0x20, 0x20, 0x34, 0x20, 0x20, 0x20, 0x20, 0x20, 0x20, 0x20,
    0x20, 0x20, 0x60, 0x0a, 0x32, 0x2e, 0x30, 0x0a, 0x63, 0x6f, 0x6e, 0x74, 0x72, 0x6f, 0x6c, 0x2e,
    0x74, 0x61, 0x72, 0x2e, 0x7a, 0x73, 0x74, 0x20, 0x31, 0x37, 0x39, 0x33, 0x32, 0x32, 0x38, 0x37,
    0x32, 0x33, 0x20, 0x20, 0x30, 0x20, 0x20, 0x20, 0x20, 0x20, 0x30, 0x20, 0x20, 0x20, 0x20, 0x20,
    0x31, 0x30, 0x30, 0x36, 0x34, 0x34, 0x20, 0x20, 0x32, 0x31, 0x35, 0x20, 0x20, 0x20, 0x20, 0x20,
    0x20, 0x20, 0x60, 0x0a, 0x28, 0xb5, 0x2f, 0xfd, 0x64, 0x00, 0x27, 0x4d, 0x06, 0x00, 0xd2, 0x0a,
    0x22, 0x1c, 0x60, 0x49, 0xea, 0x00, 0x2e, 0x85, 0x97, 0xf8, 0xbb, 0xfc, 0x50, 0x99, 0x25, 0x61,
    0x8c, 0x0a, 0x1d, 0x9a, 0x15, 0x6d, 0xfd, 0x26, 0x81, 0x45, 0x00, 0x17, 0x10, 0x36, 0xce, 0xc5,
    0x37, 0xdc, 0x2c, 0x0c, 0xdd, 0xcb, 0x3d, 0xa0, 0xcb, 0xcd, 0xb2, 0xe0, 0x6b, 0x18, 0x47, 0xcc,
    0xf7, 0x2e, 0xe2, 0x2b, 0x38, 0x6f, 0x91, 0x05, 0x8a, 0xd1, 0xcd, 0x18, 0x00, 0x6c, 0x32, 0x67,
    0xe8, 0xf6, 0xa1, 0xdb, 0x81, 0xf2, 0xde, 0x26, 0x63, 0x3f, 0xbe, 0xf1, 0xbb, 0xa2, 0x79, 0x40,
    0x51, 0x73, 0x92, 0xc1, 0x76, 0xd1, 0xb9, 0xa0, 0x74, 0x1f, 0x24, 0x63, 0x84, 0x4d, 0x68, 0x4b,
    0xa0, 0x49, 0x0e, 0x42, 0xe7, 0xa0, 0x43, 0xa4, 0x74, 0x78, 0xed, 0x0f, 0xbb, 0x19, 0xcc, 0x77,
    0x3b, 0xc9, 0xf4, 0xfd, 0x78, 0xa8, 0x24, 0x04, 0x5a, 0x2b, 0x1d, 0xd6, 0x4a, 0xba, 0x08, 0x75,
    0x88, 0xaa, 0x2a, 0xb5, 0x54, 0x55, 0x89, 0xc1, 0x04, 0x18, 0x00, 0x0f, 0x03, 0x78, 0x00, 0xf0,
    0x2b, 0x05, 0x7c, 0xa6, 0x12, 0x2a, 0xc8, 0x2f, 0x22, 0x16, 0xd1, 0xea, 0x32, 0x60, 0x40, 0x8d,
    0x40, 0x76, 0x03, 0x64, 0x9d, 0x7c, 0x05, 0x96, 0x15, 0x19, 0x80, 0x00, 0xa0, 0x3e, 0x16, 0xa0,
    0x00, 0x08, 0x18, 0x0a, 0x07, 0x80, 0x13, 0x02, 0xd0, 0x1c, 0x33, 0x66, 0x29, 0x73, 0x60, 0x05,
    0x80, 0x63, 0xe5, 0x32, 0x3e, 0x81, 0x21, 0xb3, 0xbc, 0xf4, 0x56, 0x0a, 0x64, 0x61, 0x74, 0x61,
    0x2e, 0x74, 0x61, 0x72, 0x2e, 0x7a, 0x73, 0x74, 0x20, 0x20, 0x20, 0x20, 0x31, 0x37, 0x39, 0x33,
    0x32, 0x32, 0x38, 0x37, 0x32, 0x33, 0x20, 0x20, 0x30, 0x20, 0x20, 0x20, 0x20, 0x20, 0x30, 0x20,
    0x20, 0x20, 0x20, 0x20, 0x31, 0x30, 0x30, 0x36, 0x34, 0x34, 0x20, 0x20, 0x31, 0x37, 0x35, 0x20,
    0x20, 0x20, 0x20, 0x20, 0x20, 0x20, 0x60, 0x0a, 0x28, 0xb5, 0x2f, 0xfd, 0x64, 0x00, 0x27, 0x0d,
    0x05, 0x00, 0x42, 0x86, 0x14, 0x17, 0x90, 0x37, 0x6d, 0x0d, 0x84, 0x6c, 0xfc, 0x1d, 0xe9, 0x52,
    0x76, 0xca, 0x19, 0x6b, 0x69, 0x0b, 0x6d, 0xc9, 0xd2, 0x57, 0x35, 0x23, 0xec, 0x80, 0x4e, 0x92,
    0x03, 0xb9, 0x15, 0xee, 0xf5, 0xa8, 0x9e, 0x62, 0x20, 0x08, 0x14, 0x84, 0x65, 0x34, 0xd7, 0x7d,
    0x48, 0xd4, 0xbc, 0x42, 0x1b, 0xf0, 0x0e, 0x64, 0x20, 0xc9, 0xe8, 0x1e, 0x0f, 0xa5, 0xe5, 0x08,
    0xa5, 0x1b, 0x95, 0x19, 0x32, 0x94, 0xb4, 0xac, 0x55, 0x1a, 0x66, 0x3d, 0xcc, 0x7a, 0xce, 0xc5,
    0xfa, 0xbf, 0xcb, 0xff, 0x5f, 0x47, 0x04, 0x1d, 0x00, 0x94, 0x9b, 0xf7, 0x00, 0xac, 0xad, 0xb4,
    0x80, 0x01, 0xd5, 0x40, 0x77, 0x41, 0x38, 0x16, 0xa0, 0xe5, 0x0e, 0xa8, 0xe4, 0x83, 0x94, 0xcc,
    0x01, 0x95, 0x0c, 0x00, 0x45, 0x6e, 0x40, 0x41, 0x81, 0xbc, 0xde, 0x03, 0xa0, 0x4a, 0x1a, 0x50,
    0xd5, 0x01, 0x22, 0x8a, 0x00, 0x09, 0x80, 0x00, 0xc0, 0x2e, 0x16, 0xa0, 0x00, 0x08, 0x18, 0x0a,
    0x07, 0x80, 0x13, 0x02, 0xd0, 0x1c, 0x33, 0x66, 0x29, 0x73, 0x60, 0x05, 0x80, 0x63, 0xe5, 0x32,
    0x3e, 0x81, 0x21, 0x52, 0x82, 0x7a, 0xa3, 0x0a,
];

const PACKAGE_GZ: &[u8] = &[
    0x21, 0x3c, 0x61, 0x72, 0x63, 0x68, 0x3e, 0x0a, 0x64, 0x65, 0x62, 0x69, 0x61, 0x6e, 0x2d, 0x62,
    0x69, 0x6e, 0x61, 0x72, 0x79, 0x20, 0x20, 0x20, 0x31, 0x37, 0x39, 0x33, 0x32, 0x32, 0x38, 0x37,
    0x32, 0x33, 0x20, 0x20, 0x30, 0x20, 0x20, 0x20, 0x20, 0x20, 0x30, 0x20, 0x20, 0x20, 0x20, 0x20,
    0x31, 0x30, 0x30, 0x36, 0x34, 0x34, 0x20, 0x20, 0x34, 0x20, 0x20, 0x20, 0x20, 0x20, 0x20, 0x20,
    0x20, 0x20, 0x60, 0x0a, 0x32, 0x2e, 0x30, 0x0a, 0x63, 0x6f, 0x6e, 0x74, 0x72, 0x6f, 0x6c, 0x2e,
    0x74, 0x61, 0x72, 0x2e, 0x67, 0x7a, 0x20, 0x20, 0x31, 0x37, 0x39, 0x33, 0x32, 0x32, 0x38, 0x37,
    0x32, 0x33, 0x20, 0x20, 0x30, 0x20, 0x20, 0x20, 0x20, 0x20, 0x30, 0x20, 0x20, 0x20, 0x20, 0x20,
    0x31, 0x30, 0x30, 0x36, 0x34, 0x34, 0x20, 0x20, 0x32, 0x33, 0x34, 0x20, 0x20, 0x20, 0x20, 0x20,
    0x20, 0x20, 0x60, 0x0a, 0x1f, 0x8b, 0x08, 0x00, 0x00, 0x00, 0x00, 0x00, 0x02, 0x03, 0xed, 0xd2,
    0xcb, 0x4a, 0xc5, 0x30, 0x10, 0x06, 0xe0, 0xac, 0xf3, 0x14, 0xf3, 0x04, 0x3d, 0x4d, 0x2f, 0x27,
    0x70, 0x56, 0x0a, 0x6e, 0x05, 0x57, 0xee, 0x63, 0x88, 0x36, 0xd8, 0x66, 0x64, 0x92, 0x2e, 0x7c,
    0x7b, 0xd3, 0xee, 0x14, 0x2f, 0xb8, 0xa8, 0x20, 0xfc, 0x1f, 0x84, 0x5c, 0xfe, 0x99, 0xd5, 0xa4,
    0x39, 0xa9, 0xc3, 0xb5, 0x95, 0x1d, 0xc7, 0x7d, 0xaf, 0x3e, 0xee, 0xfb, 0xd9, 0x8c, 0x9d, 0x6d,
    0x07, 0x6b, 0xcf, 0xc3, 0x56, 0x67, 0x6d, 0xdf, 0x29, 0x1a, 0xd5, 0x1f, 0x58, 0x73, 0x71, 0x42,
    0xa4, 0x84, 0xb9, 0x7c, 0x57, 0xf7, 0x53, 0xfe, 0x4f, 0x35, 0x27, 0xcf, 0xa9, 0x08, 0xcf, 0x07,
    0xcf, 0xff, 0x3c, 0x0c, 0x5f, 0xce, 0xbf, 0x33, 0xfd, 0xfb, 0xf9, 0x1b, 0xd3, 0xf7, 0x46, 0x51,
    0x8b, 0xf9, 0x1f, 0xee, 0xce, 0xf9, 0x67, 0xf7, 0x14, 0x2e, 0xf4, 0xc8, 0xac, 0xef, 0x83, 0xe4,
    0xc8, 0xe9, 0x42, 0xa6, 0x69, 0xf5, 0xb5, 0xf8, 0x29, 0x96, 0xe0, 0xcb, 0x2a, 0x35, 0x76, 0xf3,
    0xac, 0x6f, 0x5d, 0x4c, 0xa5, 0xae, 0x20, 0xf5, 0x7e, 0xf5, 0xd0, 0x78, 0x5e, 0xf4, 0x4d, 0xc8,
    0x5e, 0xe2, 0x4b, 0xd9, 0xdb, 0xf2, 0xc4, 0x52, 0x28, 0xaf, 0xcb, 0xe2, 0xe4, 0x55, 0x93, 0xa3,
    0xed, 0x6f, 0xc5, 0xb4, 0xba, 0x2d, 0xa6, 0xb9, 0x76, 0xd6, 0xc7, 0xc4, 0x65, 0x0a, 0xf2, 0x49,
    0xa4, 0x00, 0x00, 0x00, 0x00, 0x00, 0x00, 0x00, 0x00, 0x00, 0x00, 0x00, 0x00, 0x00, 0x00, 0x00,
    0x00, 0x00, 0xe0, 0x77, 0xde, 0x00, 0x02, 0x4e, 0xf0, 0x03, 0x00, 0x28, 0x00, 0x00, 0x64, 0x61,
    0x74, 0x61, 0x2e, 0x74, 0x61, 0x72, 0x2e, 0x67, 0x7a, 0x20, 0x20, 0x20, 0x20, 0x20, 0x31, 0x37,
    0x39, 0x33, 0x32, 0x32, 0x38, 0x37, 0x32, 0x33, 0x20, 0x20, 0x30, 0x20, 0x20, 0x20, 0x20, 0x20,
    0x30, 0x20, 0x20, 0x20, 0x20, 0x20, 0x31, 0x30, 0x30, 0x36, 0x34, 0x34, 0x20, 0x20, 0x31, 0x39,
    0x32, 0x20, 0x20, 0x20, 0x20, 0x20, 0x20, 0x20, 0x60, 0x0a, 0x1f, 0x8b, 0x08, 0x00, 0x00, 0x00,
    0x00, 0x00, 0x02, 0x03, 0xed, 0xd4, 0xbd, 0x0e, 0x83, 0x20, 0x14, 0x40, 0x61, 0xe6, 0x3e, 0x05,
    0x4f, 0x20, 0xa0, 0x20, 0x73, 0x93, 0x3a, 0xba, 0xf4, 0x0d, 0x4c, 0x6b, 0xe3, 0x60, 0x42, 0x82,
    0xfa, 0xfe, 0x55, 0x47, 0x07, 0xbb, 0xd4, 0x9f, 0x36, 0xe7, 0x5b, 0x2e, 0x09, 0x77, 0x3b, 0x81,
    0x44, 0x89, 0xcd, 0xe9, 0x91, 0x77, 0x6e, 0x9e, 0xa3, 0xe5, 0x9c, 0xcf, 0xc6, 0xa5, 0x5e, 0x5b,
    0xef, 0x73, 0x3b, 0xed, 0x79, 0x9f, 0xa5, 0x42, 0x3a, 0xb1, 0x83, 0xa1, 0xeb, 0xab, 0x28, 0xa5,
    0x88, 0x21, 0xf4, 0x6b, 0x7b, 0x9f, 0xee, 0x7f, 0x54, 0xa2, 0x86, 0x2e, 0xaa, 0x93, 0xf5, 0x37,
    0xda, 0xd9, 0x8c, 0xfe, 0xfb, 0xf5, 0xef, 0x9a, 0x2a, 0xd6, 0xea, 0x3c, 0xfd, 0xcd, 0x34, 0xe8,
    0xbf, 0x73, 0xff, 0x67, 0x78, 0xa8, 0x73, 0xf4, 0x4f, 0xad, 0xe1, 0xff, 0x3f, 0xa4, 0xff, 0x2b,
    0x04, 0x75, 0x7c, 0xff, 0xcc, 0x78, 0xde, 0xff, 0x61, 0xfd, 0xef, 0xc5, 0xf5, 0x56, 0x16, 0xdf,
    0xed, 0x9f, 0x5b, 0xbb, 0xd2, 0x3f, 0x5f, 0xf4, 0xb7, 0xda, 0x19, 0x21, 0x35, 0xfd, 0x37, 0xd7,
    0xd4, 0x6d, 0x1b, 0x2e, 0x02, 0x00, 0x00, 0x00, 0x00, 0x00, 0x00, 0x00, 0x00, 0x00, 0xc0, 0x1f,
    0x78, 0x03, 0x38, 0xe6, 0x86, 0x1f, 0x00, 0x28, 0x00, 0x00,
];

fn read(bytes: &[u8], codec: Codec) {
    let archive = Archive::new(bytes).unwrap();
    assert_eq!(archive.control_ref().ordinal, 1);
    assert_eq!(archive.control_ref().codec, codec);
    assert_eq!(archive.data_ref().ordinal, 2);
    assert_eq!(archive.data_ref().codec, codec);

    let map = archive.control_map().unwrap();
    assert_eq!(map.len(), 5);
    assert_eq!(map.get("Package"), Some("foo"));
    assert_eq!(map.get("Version"), Some("1.0"));
    assert_eq!(map.get("Architecture"), Some("all"));
    assert_eq!(map.get("Maintainer"), Some("a@b.com"));
    assert_eq!(
        map.get("Description"),
        Some("short summary\n a continuation line\n another continuation line")
    );

    let seen = RefCell::new(Vec::new());
    archive
        .data(|entry: &Entry| -> Result<(), ()> {
            seen.borrow_mut().push((entry.path.clone(), entry.data.clone()));
            Ok(())
        })
        .unwrap();
    assert_eq!(seen.into_inner(), vec![(b"./usr/share/doc/foo/README".to_vec(), b"hello\n".to_vec())]);

    let names = RefCell::new(Vec::new());
    archive
        .control(|entry: &Entry| -> Result<(), ()> {
            names.borrow_mut().push(entry.path.clone());
            Ok(())
        })
        .unwrap();
    assert!(names.into_inner().contains(&b"./control".to_vec()));
}

#[test]
fn reads_a_package_built_with_xz() {
    read(PACKAGE_XZ, Codec::Xz);
}

#[test]
fn reads_a_package_built_with_zstd() {
    read(PACKAGE_ZSTD, Codec::Zstd);
}

#[test]
fn reads_a_package_built_with_gzip() {
    read(PACKAGE_GZ, Codec::Gz);
}
