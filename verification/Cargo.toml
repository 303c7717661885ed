[package]
name = "a_epoll"
version = "0.1.0"
edition = "2021"
publish = false
