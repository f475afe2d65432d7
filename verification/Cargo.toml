[package]
name = "rosmsg"
version = "0.1.0"
edition = "2021"
publish = false

[dependencies]
byteorder = "1"
rosbag = "*"
tabled = "*"
actix-web = { version = "4", default-features = false, features = ["macros"] }
