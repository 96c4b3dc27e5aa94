[package]
name = "gifski"
version = "1.13.0"
edition = "2021"
publish = false

[dependencies]
clap = "=4.6.7"
crossbeam-channel = "=0.5.17"
dunce = "=1.0.5"
gif = "0.13"
gif-dispose = "5"
imagequant = "=4.4.1"
imgref = "=1.12.3"
lodepng = "=3.12.2"
loop9 = "=0.1.5"
natord = "=1.0.9"
ordered-channel = "=1.2.0"
pbr = "=1.1.1"
quick-error = "=2.0.1"
resize = "=0.8.9"
rgb = "=0.8.53"
wild = "=2.2.1"
y4m = "=0.8.0"
yuv = "=0.1.10"
